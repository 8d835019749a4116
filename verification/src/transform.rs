//! Data-frame transformation: anonymizes the identity columns.

use std::borrow::Cow;

use vstd::prelude::*;

use crate::anonymizer::{anonymized, maybe_anonymize};
use crate::constants::{
    CC_COLUMN, FROM_COLUMN, ORIGINAL_SPLIT_COLUMN, RAW_BODY_COLUMN, SPLIT_DATASET_COLUMN,
    TO_COLUMN, TRAILERS_COLUMN, TRAILER_IDENTITY_FIELD,
};
use crate::errors::AnonymizerError;
use crate::frame::{
    anonymized_element, cell_view, column_anonymized, first_column, first_column_from,
    first_field, first_field_from, frame_anonymized, frame_fault, has_id_source, id_map_of,
    is_str_target, lemma_first_column,
    list_cells_anonymized, list_row_anonymized, same_values, series_anonymized, str_cells_anonymized,
    trailer_fault, trailers_anonymized, Column, ColumnData, FieldValues, Frame, Refusals,
    StructField, StructList, TrailerFault,
};

verus! {

/// The error that a trailer fault of the column `name`, with data `data` and
/// refusals `refusals`, is reported as, for the field `key`: the data-frame
/// library's own message where it refuses a read, and the library's message
/// around it where the layout is wrong.
pub open spec fn fault_error(
    f: TrailerFault,
    name: Seq<char>,
    data: ColumnData,
    refusals: Refusals,
    key: Seq<char>,
    e: AnonymizerError,
) -> bool {
    match f {
        TrailerFault::NotList => e matches AnonymizerError::Polars(m) && m@ == refusals.as_list@,
        TrailerFault::NotStruct => e matches AnonymizerError::Config(m) && m@ == name
            + " inner is not a struct: "@ + refusals.inner_as_struct@,
        TrailerFault::MissingField => e matches AnonymizerError::Config(m) && m@ == name
            + " missing '"@ + key + "' field"@,
        TrailerFault::NotString => data matches ColumnData::StructList(l) && e matches AnonymizerError::Polars(
            m,
        ) && m@ == l.fields@[first_field(l.fields@, key)].as_str@,
    }
}

/// The error of anonymizing a frame whose trailers column has a fault.
pub open spec fn frame_error(cols: Seq<Column>, f: TrailerFault, e: AnonymizerError) -> bool {
    let c = cols[first_column(cols, "trailers"@)];
    fault_error(f, c.name@, c.data, c.refusals, "identification"@, e)
}

/// Whether `a` holds the text `b`.
fn same_text(a: &String, b: &str) -> (r: bool)
    ensures
        r == (a@ == b@),
{
    *a == String::from_str(b)
}

/// `a + b` as a new string.
fn joined(a: &str, b: &str) -> (r: String)
    ensures
        r@ == a@ + b@,
{
    let mut r = String::from_str(a);
    r.append(b);
    r
}

/// The anonymized text of `v`.
fn anonymized_text(v: &str) -> (r: String)
    ensures
        r@ == anonymized(v@),
{
    match maybe_anonymize(v) {
        Cow::Borrowed(b) => String::from_str(b),
        Cow::Owned(o) => o,
    }
}

fn clone_cells(v: &Vec<Option<String>>) -> (r: Vec<Option<String>>)
    ensures
        r@ == v@,
{
    let mut r: Vec<Option<String>> = Vec::new();
    let mut i: usize = 0;
    while i < v.len()
        invariant
            i <= v.len(),
            r@ == v@.subrange(0, i as int),
        decreases v.len() - i,
    {
        let c = match &v[i] {
            Some(s) => Some(s.clone()),
            None => None,
        };
        r.push(c);
        assert(v@.subrange(0, i + 1) == v@.subrange(0, i as int).push(v@[i as int]));
        i = i + 1;
    }
    assert(v@.subrange(0, v@.len() as int) == v@);
    r
}

/// Anonymizes a column of strings; nulls stay null.
fn anonymize_str_cells(v: &Vec<Option<String>>) -> (r: Vec<Option<String>>)
    ensures
        str_cells_anonymized(v@, r@),
{
    let mut r: Vec<Option<String>> = Vec::new();
    let mut i: usize = 0;
    while i < v.len()
        invariant
            i <= v.len(),
            r@.len() == i,
            forall|j: int| 0 <= j < i ==> #[trigger] cell_view(r@[j]) == crate::frame::anonymized_cell(v@[j]),
        decreases v.len() - i,
    {
        let c = match &v[i] {
            Some(s) => Some(anonymized_text(s.as_str())),
            None => None,
        };
        r.push(c);
        i = i + 1;
    }
    r
}

/// Anonymizes one list of strings; a null element becomes the empty string.
fn anonymize_list_row(v: &Vec<Option<String>>) -> (r: Vec<Option<String>>)
    ensures
        r@.len() == v@.len(),
        forall|j: int| 0 <= j < v@.len() ==> #[trigger] cell_view(r@[j]) == Some(anonymized_element(v@[j])),
{
    let mut r: Vec<Option<String>> = Vec::new();
    let mut i: usize = 0;
    while i < v.len()
        invariant
            i <= v.len(),
            r@.len() == i,
            forall|j: int| 0 <= j < i ==> #[trigger] cell_view(r@[j]) == Some(anonymized_element(v@[j])),
        decreases v.len() - i,
    {
        let c = match &v[i] {
            Some(s) => anonymized_text(s.as_str()),
            None => String::new(),
        };
        r.push(Some(c));
        i = i + 1;
    }
    r
}

/// Anonymizes a column of lists of strings; a null list stays null.
fn anonymize_list_str(v: &Vec<Option<Vec<Option<String>>>>) -> (r: Vec<Option<Vec<Option<String>>>>)
    ensures
        list_cells_anonymized(v@, r@),
{
    let mut r: Vec<Option<Vec<Option<String>>>> = Vec::new();
    let mut i: usize = 0;
    while i < v.len()
        invariant
            i <= v.len(),
            r@.len() == i,
            forall|j: int| 0 <= j < i ==> #[trigger] list_row_anonymized(v@[j], r@[j]),
        decreases v.len() - i,
    {
        let row = match &v[i] {
            Some(vals) => Some(anonymize_list_row(vals)),
            None => None,
        };
        r.push(row);
        assert(list_row_anonymized(v@[i as int], r@[i as int]));
        i = i + 1;
    }
    r
}

/// Anonymizes a column: strings and lists of strings; any other data is kept.
fn anonymize_series(data: ColumnData) -> (r: ColumnData)
    ensures
        series_anonymized(data, r),
{
    match data {
        ColumnData::Str(v) => ColumnData::Str(anonymize_str_cells(&v)),
        ColumnData::StrList(v) => ColumnData::StrList(anonymize_list_str(&v)),
        other => other,
    }
}

/// The index of the first field named `key`, or the number of fields.
fn find_field(fields: &Vec<StructField>, key: &str) -> (k: usize)
    ensures
        k == first_field(fields@, key@),
{
    let mut i: usize = 0;
    while i < fields.len() && !same_text(&fields[i].name, key)
        invariant
            i <= fields.len(),
            first_field(fields@, key@) == first_field_from(fields@, key@, i as int),
        decreases fields.len() - i,
    {
        i = i + 1;
    }
    i
}

/// The index of the first column named `name`, or the number of columns.
pub fn find_column(cols: &Vec<Column>, name: &str) -> (k: usize)
    ensures
        k == first_column(cols@, name@),
{
    let mut i: usize = 0;
    while i < cols.len() && !same_text(&cols[i].name, name)
        invariant
            i <= cols.len(),
            first_column(cols@, name@) == first_column_from(cols@, name@, i as int),
        decreases cols.len() - i,
    {
        i = i + 1;
    }
    i
}

fn clone_field(f: &StructField) -> (r: StructField)
    ensures
        r.name == f.name,
        r.as_str == f.as_str,
        same_values(r.values, f.values),
{
    let values = match &f.values {
        FieldValues::Str(v) => FieldValues::Str(clone_cells(v)),
        FieldValues::Other(n) => FieldValues::Other(*n),
    };
    StructField { name: f.name.clone(), values, as_str: f.as_str.clone() }
}

fn copy_refusals(r: &Refusals) -> (c: Refusals)
    ensures
        c == *r,
{
    Refusals {
        as_list: r.as_list.clone(),
        as_str: r.as_str.clone(),
        inner_as_struct: r.inner_as_struct.clone(),
    }
}

/// Anonymizes the field `key` of the structs of a list-of-struct column.
/// The list and struct null masks are dropped.
fn anonymize_trailers(name: &str, data: ColumnData, refusals: &Refusals, key: &str) -> (r: Result<
    ColumnData,
    AnonymizerError,
>)
    ensures
        match r {
            Ok(new) => {
                &&& trailer_fault(data, key@) is None
                &&& data matches ColumnData::StructList(a)
                &&& new matches ColumnData::StructList(b)
                &&& trailers_anonymized(a, key@, b)
            },
            Err(e) => {
                &&& trailer_fault(data, key@) matches Some(f)
                &&& fault_error(f, name@, data, *refusals, key@, e)
            },
        },
{
    match data {
        ColumnData::Str(_) | ColumnData::Other(_) => Err(
            AnonymizerError::Polars(refusals.as_list.clone()),
        ),
        ColumnData::StrList(_) | ColumnData::OtherList(_) => Err(
            AnonymizerError::Config(
                joined(joined(name, " inner is not a struct: ").as_str(), refusals.inner_as_struct.as_str()),
            ),
        ),
        ColumnData::StructList(l) => {
            let k = find_field(&l.fields, key);
            if k >= l.fields.len() {
                let msg = joined(joined(joined(name, " missing '").as_str(), key).as_str(), "' field");
                return Err(AnonymizerError::Config(msg));
            }
            let anon = match &l.fields[k].values {
                FieldValues::Str(vals) => anonymize_str_cells(vals),
                FieldValues::Other(_) => {
                    return Err(AnonymizerError::Polars(l.fields[k].as_str.clone()));
                },
            };
            let ghost kk = k as int;
            let mut fields: Vec<StructField> = Vec::new();
            let mut i: usize = 0;
            while i < l.fields.len()
                invariant
                    i <= l.fields.len(),
                    fields@.len() == i,
                    kk == first_field(l.fields@, key@),
                    l.fields@[kk].values matches FieldValues::Str(a) && str_cells_anonymized(a@, anon@),
                    forall|j: int|
                        0 <= j < i ==> {
                            &&& (#[trigger] fields@[j]).name == l.fields@[j].name
                            &&& fields@[j].as_str == l.fields@[j].as_str
                            &&& if l.fields@[j].name@ == key@ {
                                fields@[j].values matches FieldValues::Str(b) && b@ == anon@
                            } else {
                                same_values(fields@[j].values, l.fields@[j].values)
                            }
                        },
                decreases l.fields.len() - i,
            {
                let f = if same_text(&l.fields[i].name, key) {
                    StructField {
                        name: l.fields[i].name.clone(),
                        values: FieldValues::Str(clone_cells(&anon)),
                        as_str: l.fields[i].as_str.clone(),
                    }
                } else {
                    clone_field(&l.fields[i])
                };
                fields.push(f);
                i = i + 1;
            }
            Ok(ColumnData::StructList(StructList {
                offsets: l.offsets,
                validity: None,
                struct_validity: None,
                fields,
            }))
        },
    }
}

/// The error of building an identity map from a frame without a `from`
/// column of strings.
pub open spec fn id_map_error(cols: Seq<Column>, e: AnonymizerError) -> bool {
    let k = first_column(cols, "from"@);
    if k >= cols.len() {
        e matches AnonymizerError::Config(m) && m@ == "Column '"@ + "from"@ + "' not found"@
    } else {
        e matches AnonymizerError::Polars(m) && m@ == cols[k].refusals.as_str@
    }
}

/// Transform a frame by anonymizing its identity columns.
pub fn anonymize_dataframe(df: Frame) -> (r: Result<Frame, AnonymizerError>)
    ensures
        match r {
            Ok(new) => frame_fault(df.columns@) is None && frame_anonymized(df, new),
            Err(e) => {
                &&& frame_fault(df.columns@) matches Some(f)
                &&& frame_error(df.columns@, f, e)
            },
        },
{
    let ghost orig = df.columns@;
    let mut cols = df.columns;
    let k_from = find_column(&cols, FROM_COLUMN);
    let k_to = find_column(&cols, TO_COLUMN);
    let k_cc = find_column(&cols, CC_COLUMN);
    let k_raw = find_column(&cols, RAW_BODY_COLUMN);
    let k_tr = find_column(&cols, TRAILERS_COLUMN);
    let n = cols.len();
    let mut out: Vec<Column> = Vec::new();
    let mut i: usize = 0;
    while i < n
        invariant
            n == orig.len(),
            orig == df.columns@,
            i <= n,
            cols@ == orig.subrange(i as int, n as int),
            out@.len() == i,
            k_from == first_column(orig, "from"@),
            k_to == first_column(orig, "to"@),
            k_cc == first_column(orig, "cc"@),
            k_raw == first_column(orig, "raw_body"@),
            k_tr == first_column(orig, "trailers"@),
            k_tr < i ==> trailer_fault(orig[k_tr as int].data, "identification"@) is None,
            forall|j: int| 0 <= j < i ==> column_anonymized(orig, j, #[trigger] out@[j]),
        decreases n - i,
    {
        proof {
            reveal_strlit("from");
            reveal_strlit("to");
            reveal_strlit("cc");
            reveal_strlit("raw_body");
            reveal_strlit("trailers");
            lemma_first_column(orig, "from"@, 0);
            lemma_first_column(orig, "to"@, 0);
            lemma_first_column(orig, "cc"@, 0);
            lemma_first_column(orig, "raw_body"@, 0);
            lemma_first_column(orig, "trailers"@, 0);
            assert(TRAILERS_COLUMN@ == "trailers"@);
            assert("trailers"@.len() == 8);
            assert("from"@.len() == 4);
            assert("to"@.len() == 2);
            assert("cc"@.len() == 2);
            assert("raw_body"@.len() == 8);
            assert("trailers"@[0] != "raw_body"@[0]);
            assert(!is_str_target("trailers"@));
            assert(TRAILER_IDENTITY_FIELD@ == "identification"@);
        }
        let c = cols.remove(0);
        assert(c == orig[i as int]);
        let Column { name, data, refusals } = c;
        let new_data = if i == k_from || i == k_to || i == k_cc || i == k_raw {
            anonymize_series(data)
        } else if i == k_tr {
            match anonymize_trailers(TRAILERS_COLUMN, data, &refusals, TRAILER_IDENTITY_FIELD) {
                Ok(d) => d,
                Err(e) => {
                    return Err(e);
                },
            }
        } else {
            data
        };
        let ghost newc = Column { name, data: new_data, refusals };
        proof {
            let nm = orig[i as int].name@;
            if is_str_target(nm) && first_column(orig, nm) == i {
                assert(i == k_from || i == k_to || i == k_cc || i == k_raw);
            } else if nm == "trailers"@ && first_column(orig, nm) == i {
                assert(i == k_tr);
            } else {
                assert(i != k_from && i != k_to && i != k_cc && i != k_raw && i != k_tr);
            }
            assert(column_anonymized(orig, i as int, newc));
        }
        out.push(Column { name, data: new_data, refusals });
        assert(orig.subrange(i + 1, n as int) == orig.subrange(i as int, n as int).remove(0));
        i = i + 1;
    }
    Ok(Frame { columns: out })
}

/// Build an ID-map frame from the `from` column as it was read.
pub fn build_id_map(df: &Frame) -> (r: Result<Frame, AnonymizerError>)
    ensures
        match r {
            Ok(m) => id_map_of(df.columns@, m),
            Err(e) => !has_id_source(df.columns@) && id_map_error(df.columns@, e),
        },
{
    let k = find_column(&df.columns, SPLIT_DATASET_COLUMN);
    if k >= df.columns.len() {
        let msg = joined(joined("Column '", SPLIT_DATASET_COLUMN).as_str(), "' not found");
        return Err(AnonymizerError::Config(msg));
    }
    match &df.columns[k].data {
        ColumnData::Str(vals) => {
            let source = Column {
                name: String::from_str(ORIGINAL_SPLIT_COLUMN),
                data: ColumnData::Str(clone_cells(vals)),
                refusals: copy_refusals(&df.columns[k].refusals),
            };
            let hashed = Column {
                name: String::from_str(SPLIT_DATASET_COLUMN),
                data: ColumnData::Str(anonymize_str_cells(vals)),
                refusals: copy_refusals(&df.columns[k].refusals),
            };
            let mut columns: Vec<Column> = Vec::new();
            columns.push(source);
            columns.push(hashed);
            Ok(Frame { columns })
        },
        _ => Err(AnonymizerError::Polars(df.columns[k].refusals.as_str.clone())),
    }
}

} // verus!
