//! Which files of a list directory hold its data, and in what order they are read.

use vstd::prelude::*;

use crate::text::chars_of;

verus! {

broadcast use vstd::seq_lib::group_to_multiset_ensures;

/// The index of the last `.` before `hi`, or -1.
pub open spec fn last_dot(name: Seq<char>, hi: int) -> int
    decreases hi,
{
    if hi <= 0 {
        -1
    } else if name[hi - 1] == '.' {
        hi - 1
    } else {
        last_dot(name, hi - 1)
    }
}

/// The file name has the extension `parquet`: the text after its last `.`,
/// where that dot is not the first character, is `parquet`.
pub open spec fn is_parquet_name(name: Seq<char>) -> bool {
    let d = last_dot(name, name.len() as int);
    d > 0 && name.subrange(d + 1, name.len() as int) == "parquet"@
}

/// `a` comes before `b` in the order of their characters' code points, a
/// prefix before what extends it (the byte order of their UTF-8 encodings).
pub open spec fn text_lt(a: Seq<char>, b: Seq<char>) -> bool
    decreases a.len(),
{
    if b.len() == 0 {
        false
    } else if a.len() == 0 {
        true
    } else if a[0] != b[0] {
        (a[0] as u32) < (b[0] as u32)
    } else {
        text_lt(a.drop_first(), b.drop_first())
    }
}

pub proof fn lemma_text_lt_transitive(a: Seq<char>, b: Seq<char>, c: Seq<char>)
    requires
        text_lt(a, b),
        text_lt(b, c),
    ensures
        text_lt(a, c),
    decreases a.len(),
{
    if a.len() > 0 && a[0] == b[0] && b[0] == c[0] {
        lemma_text_lt_transitive(a.drop_first(), b.drop_first(), c.drop_first());
    }
}

pub proof fn lemma_text_lt_irreflexive(a: Seq<char>)
    ensures
        !text_lt(a, a),
    decreases a.len(),
{
    if a.len() > 0 {
        lemma_text_lt_irreflexive(a.drop_first());
    }
}

/// The names of the regular files among `entries` (name, is-a-file) that
/// have the extension `parquet`, in the order of the entries.
pub open spec fn parquet_names(entries: Seq<(String, bool)>) -> Seq<Seq<char>>
    decreases entries.len(),
{
    if entries.len() == 0 {
        seq![]
    } else {
        let rest = parquet_names(entries.drop_last());
        let e = entries.last();
        if e.1 && is_parquet_name(e.0@) {
            rest.push(e.0@)
        } else {
            rest
        }
    }
}

pub open spec fn sorted_texts(s: Seq<Seq<char>>) -> bool {
    forall|a: int, b: int| 0 <= a < b < s.len() ==> !text_lt(#[trigger] s[b], #[trigger] s[a])
}

fn is_parquet_name_exec(name: &String) -> (b: bool)
    ensures
        b == is_parquet_name(name@),
{
    let v = chars_of(name.as_str());
    let mut i = v.len();
    while i > 0 && v[i - 1] != '.'
        invariant
            i <= v.len(),
            last_dot(v@, v.len() as int) == last_dot(v@, i as int),
        decreases i,
    {
        i = i - 1;
    }
    if i <= 1 {
        return false;
    }
    let ext = chars_of("parquet");
    if v.len() - i != ext.len() {
        proof {
            assert(v@.subrange(i as int, v.len() as int).len() != ext@.len());
        }
        return false;
    }
    let mut j: usize = 0;
    while j < ext.len()
        invariant
            j <= ext.len(),
            i + ext.len() == v.len(),
            1 < i,
            v@ == name@,
            ext@ == "parquet"@,
            last_dot(v@, v.len() as int) == i - 1,
            forall|m: int| 0 <= m < j ==> v@[i + m] == #[trigger] ext@[m],
        decreases ext.len() - j,
    {
        if v[i + j] != ext[j] {
            proof {
                assert(v@.subrange(i as int, v.len() as int)[j as int] != ext@[j as int]);
            }
            return false;
        }
        j = j + 1;
    }
    assert(v@.subrange(i as int, v.len() as int) == ext@);
    true
}

/// Whether `a` comes before `b`.
fn text_less(a: &Vec<char>, b: &Vec<char>) -> (r: bool)
    ensures
        r == text_lt(a@, b@),
{
    let mut i: usize = 0;
    assert(a@.skip(0) == a@);
    assert(b@.skip(0) == b@);
    while i < a.len() && i < b.len() && a[i] == b[i]
        invariant
            i <= a.len(),
            i <= b.len(),
            text_lt(a@, b@) == text_lt(a@.skip(i as int), b@.skip(i as int)),
        decreases a.len() - i,
    {
        assert(a@.skip(i as int).drop_first() == a@.skip(i + 1));
        assert(b@.skip(i as int).drop_first() == b@.skip(i + 1));
        i = i + 1;
    }
    if i >= b.len() {
        false
    } else if i >= a.len() {
        true
    } else {
        (a[i] as u32) < (b[i] as u32)
    }
}

/// The names of the Parquet files among the entries of a directory (name,
/// is-a-file), sorted.
pub fn select_parquet_files(entries: &Vec<(String, bool)>) -> (r: Vec<String>)
    ensures
        sorted_texts(r@.map_values(|s: String| s@)),
        r@.map_values(|s: String| s@).to_multiset() == parquet_names(entries@).to_multiset(),
{
    let mut names: Vec<String> = Vec::new();
    let mut i: usize = 0;
    while i < entries.len()
        invariant
            i <= entries.len(),
            names@.map_values(|s: String| s@) == parquet_names(entries@.take(i as int)),
        decreases entries.len() - i,
    {
        assert(entries@.take(i + 1).drop_last() == entries@.take(i as int));
        if entries[i].1 && is_parquet_name_exec(&entries[i].0) {
            names.push(entries[i].0.clone());
        }
        assert(names@.map_values(|s: String| s@) == parquet_names(entries@.take(i + 1)));
        i = i + 1;
    }
    assert(entries@.take(entries@.len() as int) == entries@);
    let ghost all = names@.map_values(|s: String| s@);
    let mut sorted: Vec<String> = Vec::new();
    let mut keys: Vec<Vec<char>> = Vec::new();
    let mut k: usize = 0;
    while k < names.len()
        invariant
            k <= names.len(),
            all == names@.map_values(|s: String| s@),
            keys@.len() == sorted@.len(),
            forall|m: int| 0 <= m < keys@.len() ==> (#[trigger] keys@[m])@ == sorted@[m]@,
            sorted_texts(sorted@.map_values(|s: String| s@)),
            sorted@.map_values(|s: String| s@).to_multiset() == all.take(k as int).to_multiset(),
        decreases names.len() - k,
    {
        let x = chars_of(names[k].as_str());
        let ghost cur = sorted@.map_values(|s: String| s@);
        let mut pos: usize = 0;
        while pos < keys.len() && !text_less(&x, &keys[pos])
            invariant
                pos <= keys.len(),
                keys@.len() == sorted@.len(),
                cur == sorted@.map_values(|s: String| s@),
                forall|m: int| 0 <= m < keys@.len() ==> (#[trigger] keys@[m])@ == sorted@[m]@,
                forall|m: int| 0 <= m < pos ==> !text_lt(x@, #[trigger] cur[m]),
            decreases keys.len() - pos,
        {
            assert(cur[pos as int] == keys@[pos as int]@);
            pos = pos + 1;
        }
        proof {
            if pos < keys.len() {
                assert(cur[pos as int] == keys@[pos as int]@);
            }
        }
        let name = names[k].clone();
        sorted.insert(pos, name);
        keys.insert(pos, x);
        proof {
            let next = sorted@.map_values(|s: String| s@);
            assert(next == cur.insert(pos as int, all[k as int]));
            assert(all[k as int] == x@);
            assert forall|a: int, b: int| 0 <= a < b < next.len() implies !text_lt(
                #[trigger] next[b],
                #[trigger] next[a],
            ) by {
                if b < pos {
                    assert(next[a] == cur[a] && next[b] == cur[b]);
                } else if b == pos {
                    assert(next[a] == cur[a]);
                } else if a == pos {
                    assert(next[b] == cur[b - 1]);
                    assert(text_lt(x@, cur[pos as int]));
                    if pos == b - 1 {
                        if text_lt(cur[b - 1], x@) {
                            lemma_text_lt_transitive(x@, cur[pos as int], x@);
                            lemma_text_lt_irreflexive(x@);
                        }
                    } else {
                        if text_lt(cur[b - 1], x@) {
                            lemma_text_lt_transitive(cur[b - 1], x@, cur[pos as int]);
                        }
                    }
                } else if a < pos {
                    assert(next[a] == cur[a] && next[b] == cur[b - 1]);
                } else {
                    assert(next[a] == cur[a - 1] && next[b] == cur[b - 1]);
                }
            }
            assert(all.take(k + 1) == all.take(k as int).push(all[k as int]));
            vstd::seq_lib::to_multiset_insert(cur, pos as int, all[k as int]);
            assert forall|m: int| 0 <= m < keys@.len() implies (#[trigger] keys@[m])@ == sorted@[m]@ by {
                if m == pos {
                } else if m < pos {
                } else {
                }
            }
        }
        k = k + 1;
    }
    assert(all.take(names@.len() as int) == all);
    sorted
}

/// `name` ends with `.parquet` after at least one other character.
pub open spec fn stem_dot_parquet(name: Seq<char>) -> bool {
    &&& name.len() > 8
    &&& name.subrange(name.len() - 8, name.len() as int) == seq!['.', 'p', 'a', 'r', 'q', 'u', 'e', 't']
}

proof fn lemma_last_dot(name: Seq<char>, hi: int)
    requires
        0 <= hi <= name.len(),
    ensures
        -1 <= last_dot(name, hi) < hi,
        last_dot(name, hi) >= 0 ==> name[last_dot(name, hi)] == '.',
        forall|j: int| last_dot(name, hi) < j < hi ==> name[j] != '.',
    decreases hi,
{
    if hi > 0 && name[hi - 1] != '.' {
        lemma_last_dot(name, hi - 1);
    }
}

proof fn lemma_last_dot_is(name: Seq<char>, hi: int, k: int)
    requires
        0 <= k < hi <= name.len(),
        name[k] == '.',
        forall|j: int| k < j < hi ==> name[j] != '.',
    ensures
        last_dot(name, hi) == k,
    decreases hi,
{
    if hi - 1 > k {
        lemma_last_dot_is(name, hi - 1, k);
    }
}

/// A file name has the extension `parquet` exactly when it is a non-empty
/// stem followed by `.parquet`, whatever its length.
pub proof fn law_parquet_name_is_stem_dot_parquet(name: Seq<char>)
    ensures
        is_parquet_name(name) <==> stem_dot_parquet(name),
{
    reveal_strlit("parquet");
    let n = name.len() as int;
    let suffix = seq!['.', 'p', 'a', 'r', 'q', 'u', 'e', 't'];
    lemma_last_dot(name, n);
    let d = last_dot(name, n);
    if is_parquet_name(name) {
        assert(name.subrange(d + 1, n).len() == 7);
        assert(d == n - 8);
        assert forall|j: int| 0 <= j < 8 implies name.subrange(n - 8, n)[j] == suffix[j] by {
            if j > 0 {
                assert(name[n - 8 + j] == name.subrange(d + 1, n)[j - 1]);
            }
        }
        assert(name.subrange(n - 8, n) =~= suffix);
    }
    if stem_dot_parquet(name) {
        assert forall|j: int| n - 8 <= j < n implies name[j] == suffix[j - (n - 8)] by {
            assert(name[j] == name.subrange(n - 8, n)[j - (n - 8)]);
        }
        lemma_last_dot_is(name, n, n - 8);
        assert(name.subrange(n - 7, n) =~= "parquet"@);
    }
}

/// Every regular file whose name is a stem followed by `.parquet` is read,
/// and nothing else is: a name is among the Parquet names of the entries
/// exactly when it has that form and some entry that is a file bears it.
pub proof fn law_parquet_files_are_all_read(entries: Seq<(String, bool)>, name: Seq<char>)
    ensures
        parquet_names(entries).contains(name) <==> (stem_dot_parquet(name) && exists|i: int|
            0 <= i < entries.len() && (#[trigger] entries[i]).1 && entries[i].0@ == name),
    decreases entries.len(),
{
    law_parquet_name_is_stem_dot_parquet(name);
    if entries.len() > 0 {
        let rest = entries.drop_last();
        law_parquet_files_are_all_read(rest, name);
        let e = entries.last();
        let last = entries.len() - 1;
        assert(entries[last] == e);
        let rn = parquet_names(rest);
        let in_rest = exists|i: int| 0 <= i < rest.len() && (#[trigger] rest[i]).1 && rest[i].0@ == name;
        let in_all = exists|i: int|
            0 <= i < entries.len() && (#[trigger] entries[i]).1 && entries[i].0@ == name;
        if in_rest {
            let i = choose|i: int| 0 <= i < rest.len() && (#[trigger] rest[i]).1 && rest[i].0@ == name;
            assert(entries[i] == rest[i]);
        }
        if in_all {
            let i = choose|i: int|
                0 <= i < entries.len() && (#[trigger] entries[i]).1 && entries[i].0@ == name;
            if i < rest.len() {
                assert(rest[i] == entries[i]);
            }
        }
        assert(in_all <==> (in_rest || (e.1 && e.0@ == name)));
        if e.1 && is_parquet_name(e.0@) {
            assert(parquet_names(entries) == rn.push(e.0@));
            assert(rn.push(e.0@).contains(name) <==> (rn.contains(name) || e.0@ == name)) by {
                if rn.push(e.0@).contains(name) {
                    let k = choose|k: int| 0 <= k < rn.len() + 1 && rn.push(e.0@)[k] == name;
                    if k < rn.len() {
                        assert(rn[k] == name);
                    }
                }
                if rn.contains(name) {
                    let k = choose|k: int| 0 <= k < rn.len() && rn[k] == name;
                    assert(rn.push(e.0@)[k] == name);
                }
                if e.0@ == name {
                    assert(rn.push(e.0@)[rn.len() as int] == name);
                }
            }
        } else {
            assert(parquet_names(entries) == rn);
        }
    }
}

/// `a` and `b` agree on their first `k` characters, and there `a` ends
/// while `b` goes on, or `a`'s character has the smaller code point.
pub open spec fn first_difference_favours(a: Seq<char>, b: Seq<char>, k: int) -> bool {
    &&& 0 <= k <= a.len()
    &&& k <= b.len()
    &&& forall|j: int| 0 <= j < k ==> a[j] == b[j]
    &&& (k == a.len() && k < b.len()) || (k < a.len() && k < b.len() && (a[k] as u32) < (b[k] as u32))
}

/// The order in which files are read: `a` comes before `b` exactly when, at
/// the first place where they differ, `a` has ended or has the smaller
/// character.
pub proof fn law_file_order_is_lexicographic(a: Seq<char>, b: Seq<char>)
    ensures
        text_lt(a, b) <==> exists|k: int| first_difference_favours(a, b, k),
    decreases a.len(),
{
    if b.len() == 0 {
        assert forall|k: int| !first_difference_favours(a, b, k) by {}
    } else if a.len() == 0 {
        assert(first_difference_favours(a, b, 0));
    } else if a[0] != b[0] {
        if (a[0] as u32) < (b[0] as u32) {
            assert(first_difference_favours(a, b, 0));
        } else {
            assert forall|k: int| !first_difference_favours(a, b, k) by {
                if first_difference_favours(a, b, k) && k > 0 {
                    assert(a[0] == b[0]);
                }
            }
        }
    } else {
        let a1 = a.drop_first();
        let b1 = b.drop_first();
        law_file_order_is_lexicographic(a1, b1);
        if exists|k: int| first_difference_favours(a1, b1, k) {
            let k = choose|k: int| first_difference_favours(a1, b1, k);
            assert forall|j: int| 0 <= j < k + 1 implies a[j] == b[j] by {
                if j > 0 {
                    assert(a[j] == a1[j - 1] && b[j] == b1[j - 1]);
                }
            }
            assert(first_difference_favours(a, b, k + 1));
        }
        if exists|k: int| first_difference_favours(a, b, k) {
            let k = choose|k: int| first_difference_favours(a, b, k);
            assert(k > 0);
            assert forall|j: int| 0 <= j < k - 1 implies a1[j] == b1[j] by {
                assert(a[j + 1] == b[j + 1]);
            }
            assert(first_difference_favours(a1, b1, k - 1));
        }
    }
}

} // verus!
