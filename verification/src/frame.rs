//! A plain-value model of the columns of a mailing-list data frame: what the
//! anonymization reads and writes, column by column.

use vstd::prelude::*;

use crate::anonymizer::anonymized;

verus! {

/// The values of the fields of a struct column, one per struct.
#[derive(Debug, Clone, PartialEq, Eq)]
pub enum FieldValues {
    /// A field of strings (`None` for null).
    Str(Vec<Option<String>>),
    /// A field of any other type, of the given length, carried through unread.
    Other(usize),
}

#[derive(Debug, Clone, PartialEq, Eq)]
pub struct StructField {
    pub name: String,
    pub values: FieldValues,
    /// The message with which the data-frame library refuses to read this
    /// field as strings; empty where it holds strings.
    pub as_str: String,
}

/// A list-of-struct column, by its layout: row `r` is the structs
/// `offsets[r]..offsets[r + 1]` of the fields, or null where `validity` says
/// so; `struct_validity` marks null structs.
#[derive(Debug, Clone, PartialEq, Eq)]
pub struct StructList {
    pub offsets: Vec<usize>,
    pub validity: Option<Vec<bool>>,
    pub struct_validity: Option<Vec<bool>>,
    pub fields: Vec<StructField>,
}

/// The data of a column.
#[derive(Debug, Clone, PartialEq, Eq)]
pub enum ColumnData {
    /// Strings (`None` for null).
    Str(Vec<Option<String>>),
    /// Lists of strings (`None` for a null list or a null element).
    StrList(Vec<Option<Vec<Option<String>>>>),
    /// Lists of structs.
    StructList(StructList),
    /// Lists of any other type, with the given number of rows, carried through unread.
    OtherList(usize),
    /// Any other type, with the given number of rows, carried through unread.
    Other(usize),
}

/// The messages with which the data-frame library refuses to read a column
/// as a type that it does not have; each is empty where the column has it.
#[derive(Debug, Clone, PartialEq, Eq)]
pub struct Refusals {
    /// Read as lists.
    pub as_list: String,
    /// Read as strings.
    pub as_str: String,
    /// The elements of its lists read as structs.
    pub inner_as_struct: String,
}

#[derive(Debug, Clone, PartialEq, Eq)]
pub struct Column {
    pub name: String,
    pub data: ColumnData,
    pub refusals: Refusals,
}

/// A data frame: its columns in order.
#[derive(Debug, Clone, PartialEq, Eq)]
pub struct Frame {
    pub columns: Vec<Column>,
}

pub open spec fn cell_view(c: Option<String>) -> Option<Seq<char>> {
    match c {
        Some(s) => Some(s@),
        None => None,
    }
}

/// What a string cell becomes: null stays null, a string is anonymized.
pub open spec fn anonymized_cell(c: Option<String>) -> Option<Seq<char>> {
    match c {
        Some(s) => Some(anonymized(s@)),
        None => None,
    }
}

/// `new` holds the anonymized strings of `old`, cell for cell.
pub open spec fn str_cells_anonymized(old: Seq<Option<String>>, new: Seq<Option<String>>) -> bool {
    &&& new.len() == old.len()
    &&& forall|i: int| 0 <= i < old.len() ==> #[trigger] cell_view(new[i]) == anonymized_cell(old[i])
}

/// What an element of a list of strings becomes: null becomes the empty
/// string, a string is anonymized.
pub open spec fn anonymized_element(c: Option<String>) -> Seq<char> {
    match c {
        Some(s) => anonymized(s@),
        None => seq![],
    }
}

pub open spec fn list_row_anonymized(old: Option<Vec<Option<String>>>, new: Option<Vec<Option<String>>>) -> bool {
    match (old, new) {
        (None, None) => true,
        (Some(a), Some(b)) => {
            &&& b@.len() == a@.len()
            &&& forall|j: int|
                0 <= j < a@.len() ==> #[trigger] cell_view(b@[j]) == Some(anonymized_element(a@[j]))
        },
        _ => false,
    }
}

/// `new` holds the anonymized lists of `old`, row for row: a null list stays null.
pub open spec fn list_cells_anonymized(
    old: Seq<Option<Vec<Option<String>>>>,
    new: Seq<Option<Vec<Option<String>>>>,
) -> bool {
    &&& new.len() == old.len()
    &&& forall|i: int| 0 <= i < old.len() ==> #[trigger] list_row_anonymized(old[i], new[i])
}

/// What anonymizing a column does to its data: strings and lists of strings
/// are anonymized, any other data is kept.
pub open spec fn series_anonymized(old: ColumnData, new: ColumnData) -> bool {
    match old {
        ColumnData::Str(a) => new matches ColumnData::Str(b) && str_cells_anonymized(a@, b@),
        ColumnData::StrList(a) => new matches ColumnData::StrList(b) && list_cells_anonymized(a@, b@),
        _ => new == old,
    }
}

/// The index of the first field named `name` at or after `i`, or the number
/// of fields.
pub open spec fn first_field_from(fields: Seq<StructField>, name: Seq<char>, i: int) -> int
    decreases fields.len() - i,
{
    if i < 0 || i >= fields.len() {
        fields.len() as int
    } else if fields[i].name@ == name {
        i
    } else {
        first_field_from(fields, name, i + 1)
    }
}

pub open spec fn first_field(fields: Seq<StructField>, name: Seq<char>) -> int {
    first_field_from(fields, name, 0)
}

/// The index of the first column named `name` at or after `i`, or the number
/// of columns.
pub open spec fn first_column_from(cols: Seq<Column>, name: Seq<char>, i: int) -> int
    decreases cols.len() - i,
{
    if i < 0 || i >= cols.len() {
        cols.len() as int
    } else if cols[i].name@ == name {
        i
    } else {
        first_column_from(cols, name, i + 1)
    }
}

pub open spec fn first_column(cols: Seq<Column>, name: Seq<char>) -> int {
    first_column_from(cols, name, 0)
}

/// Why a column cannot have its trailer identities anonymized.
pub enum TrailerFault {
    /// The column is not a list.
    NotList,
    /// The column is a list whose elements are not structs.
    NotStruct,
    /// The structs have no field of the given name.
    MissingField,
    /// The field does not hold strings.
    NotString,
}

pub open spec fn trailer_fault(data: ColumnData, key: Seq<char>) -> Option<TrailerFault> {
    match data {
        ColumnData::Str(_) | ColumnData::Other(_) => Some(TrailerFault::NotList),
        ColumnData::StrList(_) | ColumnData::OtherList(_) => Some(TrailerFault::NotStruct),
        ColumnData::StructList(l) => {
            let k = first_field(l.fields@, key);
            if k >= l.fields@.len() {
                Some(TrailerFault::MissingField)
            } else if l.fields@[k].values is Other {
                Some(TrailerFault::NotString)
            } else {
                None
            }
        },
    }
}

/// The two hold the same values.
pub open spec fn same_values(a: FieldValues, b: FieldValues) -> bool {
    match (a, b) {
        (FieldValues::Str(x), FieldValues::Str(y)) => x@ == y@,
        (FieldValues::Other(n), FieldValues::Other(m)) => n == m,
        _ => false,
    }
}

/// What anonymizing the trailers does to a list of structs: each field named
/// `key` holds the anonymized values of the first such field, the other
/// fields and the offsets are kept, and no list or struct is null any more.
pub open spec fn trailers_anonymized(old: StructList, key: Seq<char>, new: StructList) -> bool {
    let k = first_field(old.fields@, key);
    &&& new.offsets@ == old.offsets@
    &&& new.validity is None
    &&& new.struct_validity is None
    &&& new.fields@.len() == old.fields@.len()
    &&& forall|i: int|
        0 <= i < old.fields@.len() ==> {
            &&& (#[trigger] new.fields@[i]).name == old.fields@[i].name
            &&& new.fields@[i].as_str == old.fields@[i].as_str
            &&& if old.fields@[i].name@ == key {
                new.fields@[i].values matches FieldValues::Str(b) && old.fields@[k].values matches FieldValues::Str(a)
                    && str_cells_anonymized(a@, b@)
            } else {
                same_values(new.fields@[i].values, old.fields@[i].values)
            }
        }
}

/// The number of rows of a column.
pub open spec fn rows(data: ColumnData) -> int {
    match data {
        ColumnData::Str(v) => v@.len() as int,
        ColumnData::StrList(v) => v@.len() as int,
        ColumnData::StructList(l) => if l.offsets@.len() == 0 { 0 } else { l.offsets@.len() - 1 },
        ColumnData::OtherList(n) => n as int,
        ColumnData::Other(n) => n as int,
    }
}

pub proof fn lemma_first_column(cols: Seq<Column>, name: Seq<char>, i: int)
    requires
        0 <= i <= cols.len(),
    ensures
        i <= first_column_from(cols, name, i) <= cols.len(),
        first_column_from(cols, name, i) < cols.len() ==> cols[first_column_from(cols, name, i)].name@
            == name,
        forall|j: int| i <= j < first_column_from(cols, name, i) ==> #[trigger] cols[j].name@ != name,
    decreases cols.len() - i,
{
    if i < cols.len() && cols[i].name@ != name {
        lemma_first_column(cols, name, i + 1);
    }
}

/// The first column named `name` is at `k` when `k` holds that name and no
/// earlier column does.
pub proof fn lemma_first_column_is(cols: Seq<Column>, name: Seq<char>, i: int, k: int)
    requires
        0 <= i <= k < cols.len(),
        cols[k].name@ == name,
        forall|j: int| i <= j < k ==> #[trigger] cols[j].name@ != name,
    ensures
        first_column_from(cols, name, i) == k,
    decreases k - i,
{
    if i < k {
        lemma_first_column_is(cols, name, i + 1, k);
    }
}

pub open spec fn is_str_target(name: Seq<char>) -> bool {
    name == "from"@ || name == "to"@ || name == "cc"@ || name == "raw_body"@
}

/// The fault that stops the anonymization of a frame: that of its trailers
/// column, if it has one.
pub open spec fn frame_fault(cols: Seq<Column>) -> Option<TrailerFault> {
    let t = first_column(cols, "trailers"@);
    if t < cols.len() {
        trailer_fault(cols[t].data, "identification"@)
    } else {
        None
    }
}

/// What anonymizing a frame does to column `i`: the first column of each
/// string target name is anonymized, the first trailers column has its
/// identities anonymized, and every other column is kept.
pub open spec fn column_anonymized(cols: Seq<Column>, i: int, new: Column) -> bool {
    let old = cols[i];
    &&& new.name == old.name
    &&& new.refusals == old.refusals
    &&& if is_str_target(old.name@) && first_column(cols, old.name@) == i {
        series_anonymized(old.data, new.data)
    } else if old.name@ == "trailers"@ && first_column(cols, old.name@) == i {
        old.data matches ColumnData::StructList(a) && new.data matches ColumnData::StructList(b)
            && trailers_anonymized(a, "identification"@, b)
    } else {
        new.data == old.data
    }
}

/// The identity map of a frame: the `from` column as it was read, under the name
/// `__original_from`, beside its anonymized values under the name `from`. Both
/// hold strings and carry the refusals of the `from` column.
pub open spec fn id_map_of(cols: Seq<Column>, m: Frame) -> bool {
    let k = first_column(cols, "from"@);
    &&& k < cols.len()
    &&& cols[k].data matches ColumnData::Str(a)
    &&& m.columns@.len() == 2
    &&& m.columns@[0].name@ == "__original_from"@
    &&& m.columns@[0].data matches ColumnData::Str(o)
    &&& o@ == a@
    &&& m.columns@[0].refusals == cols[k].refusals
    &&& m.columns@[1].name@ == "from"@
    &&& m.columns@[1].data matches ColumnData::Str(h)
    &&& str_cells_anonymized(a@, h@)
    &&& m.columns@[1].refusals == cols[k].refusals
}

/// Whether an identity map can be built: the frame has a `from` column of strings.
pub open spec fn has_id_source(cols: Seq<Column>) -> bool {
    let k = first_column(cols, "from"@);
    k < cols.len() && cols[k].data is Str
}

pub open spec fn frame_anonymized(old: Frame, new: Frame) -> bool {
    &&& new.columns@.len() == old.columns@.len()
    &&& forall|i: int|
        0 <= i < old.columns@.len() ==> column_anonymized(old.columns@, i, #[trigger] new.columns@[i])
}

} // verus!
