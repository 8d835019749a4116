//! Extracts patch diffs from an e-mail body.

use vstd::prelude::*;

use crate::text::{
    class_has, extend_range, first_from, in_class, is_ws, lemma_run_end,
    run_end, scan_run, string_of, trim, trim_bounds, CharClass,
};

verus! {

// ------------------------------------------------------------ specification

/// ASCII letters in lower case; every other character as it is.
pub open spec fn ascii_lower(c: char) -> char {
    if 0x41 <= c as u32 <= 0x5a {
        ((c as u32) + 32) as char
    } else {
        c
    }
}

/// The line that opens a diff: `diff --git `, in any case.
pub open spec fn diff_marker() -> Seq<char> {
    seq!['d', 'i', 'f', 'f', ' ', '-', '-', 'g', 'i', 't', ' ']
}

/// A line starts at `p`: the start of the text, or just after a `\n`.
pub open spec fn line_start(s: Seq<char>, p: int) -> bool {
    p == 0 || (0 < p <= s.len() && s[p - 1] == '\n')
}

/// A diff header starts at `p`.
pub open spec fn diff_at(s: Seq<char>, p: int) -> bool {
    &&& 0 <= p
    &&& p + 11 <= s.len()
    &&& line_start(s, p)
    &&& forall|j: int| 0 <= j < 11 ==> ascii_lower(#[trigger] s[p + j]) == diff_marker()[j]
}

/// The text holds a diff header.
pub open spec fn has_diff(s: Seq<char>) -> bool {
    exists|p: int| diff_at(s, p)
}

/// A separator line starts at `p`: `---` and then only whitespace up to the
/// end of the line.
pub open spec fn sep_at(s: Seq<char>, p: int) -> bool {
    &&& 0 <= p
    &&& p + 3 <= s.len()
    &&& line_start(s, p)
    &&& s[p] == '-'
    &&& s[p + 1] == '-'
    &&& s[p + 2] == '-'
    &&& forall|j: int| p + 3 <= j < first_from(s, p + 3, '\n') ==> is_ws(#[trigger] s[j])
}

/// The positions of the separator lines at or after `p`, in order.
pub open spec fn seps_from(s: Seq<char>, p: int) -> Seq<int>
    decreases s.len() - p,
{
    if p < 0 || p >= s.len() {
        seq![]
    } else if sep_at(s, p) {
        seq![p] + seps_from(s, p + 1)
    } else {
        seps_from(s, p + 1)
    }
}

/// Where the sections of a body start: at each separator line, and at the
/// start of the body when there is no separator or a diff comes before the
/// first one.
pub open spec fn section_starts(s: Seq<char>) -> Seq<int> {
    let seps = seps_from(s, 0);
    if seps.len() == 0 || has_diff(s.subrange(0, seps[0])) {
        seq![0int] + seps
    } else {
        seps
    }
}

pub open spec fn section_end(s: Seq<char>, starts: Seq<int>, i: int) -> int {
    if i + 1 < starts.len() {
        starts[i + 1]
    } else {
        s.len() as int
    }
}

/// The patches of the sections `i..` of a body: each section that holds a
/// diff, trimmed, unless that leaves nothing.
pub open spec fn patches_from(s: Seq<char>, starts: Seq<int>, i: int) -> Seq<Seq<char>>
    decreases starts.len() - i,
{
    if i < 0 || i >= starts.len() {
        seq![]
    } else {
        let section = s.subrange(starts[i], section_end(s, starts, i));
        if has_diff(section) && trim(section).len() > 0 {
            seq![trim(section)] + patches_from(s, starts, i + 1)
        } else {
            patches_from(s, starts, i + 1)
        }
    }
}

/// The patches of a body.
pub open spec fn body_patches(s: Seq<char>) -> Seq<Seq<char>> {
    if !has_diff(s) {
        seq![]
    } else {
        patches_from(s, section_starts(s), 0)
    }
}

// ------------------------------------------------------------ implementation

fn lower_exec(c: char) -> (r: char)
    ensures
        r == ascii_lower(c),
{
    let n = c as u32;
    if 0x41 <= n && n <= 0x5a {
        let m: u8 = (n + 32) as u8;
        m as char
    } else {
        c
    }
}

fn marker_char(j: usize) -> (c: char)
    requires
        j < 11,
    ensures
        c == diff_marker()[j as int],
{
    if j == 0 {
        'd'
    } else if j == 1 || j == 8 {
        'i'
    } else if j == 2 || j == 3 {
        'f'
    } else if j == 4 || j == 10 {
        ' '
    } else if j == 5 || j == 6 {
        '-'
    } else if j == 7 {
        'g'
    } else {
        't'
    }
}

fn is_line_start(v: &Vec<char>, p: usize) -> (b: bool)
    requires
        p <= v.len(),
    ensures
        b == line_start(v@, p as int),
{
    p == 0 || v[p - 1] == '\n'
}

fn diff_at_exec(v: &Vec<char>, p: usize) -> (b: bool)
    requires
        p <= v.len(),
    ensures
        b == diff_at(v@, p as int),
{
    if v.len() - p < 11 || !is_line_start(v, p) {
        return false;
    }
    let mut j: usize = 0;
    while j < 11
        invariant
            j <= 11,
            p + 11 <= v.len(),
            forall|m: int| 0 <= m < j ==> ascii_lower(#[trigger] v@[p + m]) == diff_marker()[m],
        decreases 11 - j,
    {
        if lower_exec(v[p + j]) != marker_char(j) {
            return false;
        }
        j = j + 1;
    }
    true
}

/// Whether `v` holds a diff header.
fn has_diff_exec(v: &Vec<char>) -> (b: bool)
    ensures
        b == has_diff(v@),
{
    let mut p: usize = 0;
    while p < v.len()
        invariant
            p <= v.len(),
            forall|q: int| 0 <= q < p ==> !diff_at(v@, q),
        decreases v.len() - p,
    {
        if diff_at_exec(v, p) {
            return true;
        }
        p = p + 1;
    }
    assert forall|q: int| !diff_at(v@, q) by {
        if 0 <= q < p {
        }
    }
    false
}

fn sep_at_exec(v: &Vec<char>, p: usize) -> (b: bool)
    requires
        p <= v.len(),
    ensures
        b == sep_at(v@, p as int),
{
    if v.len() - p < 3 || !is_line_start(v, p) || v[p] != '-' || v[p + 1] != '-' || v[p + 2] != '-' {
        return false;
    }
    let eol = scan_run(v, p + 3, CharClass::Except('\n'));
    let w = scan_run(v, p + 3, CharClass::Whitespace);
    proof {
        lemma_run_end(v@, p + 3, CharClass::Except('\n'));
        lemma_run_end(v@, p + 3, CharClass::Whitespace);
        if w < eol {
            assert(!is_ws(v@[w as int]));
        }
        if w >= eol {
            assert forall|j: int| p + 3 <= j < eol implies is_ws(#[trigger] v@[j]) by {
                assert(class_has(CharClass::Whitespace, v@[j]));
            }
        }
    }
    w >= eol
}

/// The positions of the separator lines of `v`.
fn separators(v: &Vec<char>) -> (r: Vec<usize>)
    ensures
        r@.map_values(|x: usize| x as int) == seps_from(v@, 0),
{
    let mut r: Vec<usize> = Vec::new();
    let mut p: usize = 0;
    while p < v.len()
        invariant
            p <= v.len(),
            r@.map_values(|x: usize| x as int) + seps_from(v@, p as int) == seps_from(v@, 0),
        decreases v.len() - p,
    {
        let ghost before = r@.map_values(|x: usize| x as int);
        if sep_at_exec(v, p) {
            r.push(p);
            assert(r@.map_values(|x: usize| x as int) == before.push(p as int));
            assert(before + seps_from(v@, p as int) == before.push(p as int) + seps_from(v@, p + 1));
        }
        p = p + 1;
    }
    assert(r@.map_values(|x: usize| x as int) + seps_from(v@, p as int) == r@.map_values(
        |x: usize| x as int,
    ));
    r
}

/// A copy of `v[lo..hi]`.
fn copy_range(v: &Vec<char>, lo: usize, hi: usize) -> (r: Vec<char>)
    requires
        lo <= hi <= v.len(),
    ensures
        r@ == v@.subrange(lo as int, hi as int),
{
    let mut r: Vec<char> = Vec::new();
    extend_range(&mut r, v, lo, hi);
    r
}

/// Extracts patch diffs from an email body.
///
/// Splits the body on `---` separators (the git-format-patch commit/diff
/// boundary). Each section that contains `diff --git` content is treated as
/// a separate patch. Patches without a preceding `---` (commit-less diffs)
/// are also handled.
///
/// Multiple patches (multiple `---` sections) in a single body are returned
/// as separate entries. Multiple `diff --git` blocks within a single `---`
/// section are kept together as one patch (multi-file patches).
pub fn extract_patches(email_body: &str) -> (r: Vec<String>)
    ensures
        r@.map_values(|p: String| p@) == body_patches(email_body@),
{
    let v = crate::text::chars_of(email_body);
    if !has_diff_exec(&v) {
        let r: Vec<String> = Vec::new();
        assert(r@.map_values(|p: String| p@) == Seq::<Seq<char>>::empty());
        return r;
    }
    let seps = separators(&v);
    let ghost sv = seps@.map_values(|x: usize| x as int);
    proof {
        lemma_seps_sorted(v@, 0);
    }
    let mut starts: Vec<usize> = Vec::new();
    let add_start = if seps.len() == 0 {
        true
    } else {
        assert(sv[0] == seps@[0] as int);
        assert(0 <= seps_from(v@, 0)[0] < v@.len());
        let prefix = copy_range(&v, 0, seps[0]);
        has_diff_exec(&prefix)
    };
    if add_start {
        starts.push(0);
    }
    let mut i: usize = 0;
    while i < seps.len()
        invariant
            i <= seps.len(),
            sv == seps@.map_values(|x: usize| x as int),
            starts@.map_values(|x: usize| x as int) == (if add_start {
                seq![0int]
            } else {
                Seq::<int>::empty()
            }) + sv.subrange(0, i as int),
        decreases seps.len() - i,
    {
        let ghost before = starts@.map_values(|x: usize| x as int);
        starts.push(seps[i]);
        assert(starts@.map_values(|x: usize| x as int) == before.push(seps[i as int] as int));
        assert(sv.subrange(0, i + 1) == sv.subrange(0, i as int).push(sv[i as int]));
        i = i + 1;
    }
    assert(sv.subrange(0, seps.len() as int) == sv);
    let ghost st = starts@.map_values(|x: usize| x as int);
    assert(st == section_starts(v@));
    let mut patches: Vec<String> = Vec::new();
    let mut k: usize = 0;
    while k < starts.len()
        invariant
            k <= starts.len(),
            st == starts@.map_values(|x: usize| x as int),
            st == section_starts(v@),
            forall|a: int, b: int| 0 <= a < b < st.len() ==> st[a] < st[b],
            forall|a: int| 0 <= a < st.len() ==> 0 <= #[trigger] st[a] < v@.len(),
            patches@.map_values(|p: String| p@) + patches_from(v@, st, k as int) == patches_from(
                v@,
                st,
                0,
            ),
        decreases starts.len() - k,
    {
        let a = starts[k];
        let b = if k + 1 < starts.len() {
            starts[k + 1]
        } else {
            v.len()
        };
        let section = copy_range(&v, a, b);
        let ghost before = patches@.map_values(|p: String| p@);
        if has_diff_exec(&section) {
            let (lo, hi) = trim_bounds(&section);
            if lo < hi {
                patches.push(string_of(&section, lo, hi));
                assert(patches@.map_values(|p: String| p@) == before.push(trim(section@)));
                assert(before + patches_from(v@, st, k as int) == before.push(trim(section@))
                    + patches_from(v@, st, k + 1));
            }
        }
        k = k + 1;
    }
    assert(patches@.map_values(|p: String| p@) + patches_from(v@, st, k as int) == patches@.map_values(
        |p: String| p@,
    ));
    patches
}

/// The separator positions are increasing and within the text.
proof fn lemma_seps_sorted(s: Seq<char>, p: int)
    requires
        0 <= p,
    ensures
        forall|a: int, b: int|
            0 <= a < b < seps_from(s, p).len() ==> seps_from(s, p)[a] < seps_from(s, p)[b],
        forall|a: int| 0 <= a < seps_from(s, p).len() ==> p <= #[trigger] seps_from(s, p)[a] < s.len(),
    decreases s.len() - p,
{
    if p < s.len() {
        lemma_seps_sorted(s, p + 1);
        if sep_at(s, p) {
            let t = seps_from(s, p + 1);
            let u = seps_from(s, p);
            assert(u == seq![p] + t);
            assert forall|a: int, b: int| 0 <= a < b < u.len() implies u[a] < u[b] by {
                assert(u[b] == t[b - 1]);
                assert(p + 1 <= t[b - 1]);
                if a > 0 {
                    assert(u[a] == t[a - 1]);
                }
            }
            assert forall|a: int| 0 <= a < u.len() implies p <= #[trigger] u[a] < s.len() by {
                if a > 0 {
                    assert(u[a] == t[a - 1]);
                    assert(p + 1 <= t[a - 1]);
                }
            }
        } else {
            assert(seps_from(s, p) == seps_from(s, p + 1));
        }
    }
}

/// The text `diff --git ` starts at `p`, each letter in either case.
pub open spec fn diff_git_text_at(s: Seq<char>, p: int) -> bool {
    &&& 0 <= p
    &&& p + 11 <= s.len()
    &&& (s[p] == 'd' || s[p] == 'D')
    &&& (s[p + 1] == 'i' || s[p + 1] == 'I')
    &&& (s[p + 2] == 'f' || s[p + 2] == 'F')
    &&& (s[p + 3] == 'f' || s[p + 3] == 'F')
    &&& s[p + 4] == ' '
    &&& s[p + 5] == '-'
    &&& s[p + 6] == '-'
    &&& (s[p + 7] == 'g' || s[p + 7] == 'G')
    &&& (s[p + 8] == 'i' || s[p + 8] == 'I')
    &&& (s[p + 9] == 't' || s[p + 9] == 'T')
    &&& s[p + 10] == ' '
}

proof fn lemma_lower_is(c: char, x: char)
    requires
        ascii_lower(c) == x,
        !('a' <= x <= 'z'),
    ensures
        c == x,
{
}

proof fn lemma_lower_is_letter(c: char, lo: char, up: char)
    requires
        ascii_lower(c) == lo,
        'a' <= lo <= 'z',
        (up as u32) + 32 == lo as u32,
    ensures
        c == lo || c == up,
{
    if 0x41 <= c as u32 <= 0x5a {
        let u: u32 = ((c as u32) + 32) as u32;
        assert(u as char == lo);
        vstd::utf8::char_u32_cast(lo, lo as u32);
        assert(((u as char) as u32) == u);
        assert(c as u32 == up as u32);
        vstd::utf8::char_u32_cast(up, up as u32);
        vstd::utf8::char_u32_cast(c, c as u32);
    }
}

/// A body in which no line begins with `diff --git ` (in any letter case)
/// has no patches: every occurrence of that text follows some other
/// character than a line break.
pub proof fn law_no_diff_line_no_patch(s: Seq<char>)
    requires
        forall|p: int| #[trigger] diff_git_text_at(s, p) ==> p > 0 && s[p - 1] != '\n',
    ensures
        body_patches(s).len() == 0,
{
    assert forall|p: int| !diff_at(s, p) by {
        if diff_at(s, p) {
            let m = diff_marker();
            assert(s[p] == 'd' || s[p] == 'D') by {
                assert(m[0] == 'd');
                assert(ascii_lower(s[p + 0]) == m[0]);
                lemma_lower_is_letter(s[p + 0], m[0], 'D');
            }
            assert(s[p + 1] == 'i' || s[p + 1] == 'I') by {
                assert(m[1] == 'i');
                assert(ascii_lower(s[p + 1]) == m[1]);
                lemma_lower_is_letter(s[p + 1], m[1], 'I');
            }
            assert(s[p + 2] == 'f' || s[p + 2] == 'F') by {
                assert(m[2] == 'f');
                assert(ascii_lower(s[p + 2]) == m[2]);
                lemma_lower_is_letter(s[p + 2], m[2], 'F');
            }
            assert(s[p + 3] == 'f' || s[p + 3] == 'F') by {
                assert(m[3] == 'f');
                assert(ascii_lower(s[p + 3]) == m[3]);
                lemma_lower_is_letter(s[p + 3], m[3], 'F');
            }
            assert(s[p + 4] == ' ') by {
                assert(m[4] == ' ');
                assert(ascii_lower(s[p + 4]) == m[4]);
                lemma_lower_is(s[p + 4], m[4]);
            }
            assert(s[p + 5] == '-') by {
                assert(m[5] == '-');
                assert(ascii_lower(s[p + 5]) == m[5]);
                lemma_lower_is(s[p + 5], m[5]);
            }
            assert(s[p + 6] == '-') by {
                assert(m[6] == '-');
                assert(ascii_lower(s[p + 6]) == m[6]);
                lemma_lower_is(s[p + 6], m[6]);
            }
            assert(s[p + 7] == 'g' || s[p + 7] == 'G') by {
                assert(m[7] == 'g');
                assert(ascii_lower(s[p + 7]) == m[7]);
                lemma_lower_is_letter(s[p + 7], m[7], 'G');
            }
            assert(s[p + 8] == 'i' || s[p + 8] == 'I') by {
                assert(m[8] == 'i');
                assert(ascii_lower(s[p + 8]) == m[8]);
                lemma_lower_is_letter(s[p + 8], m[8], 'I');
            }
            assert(s[p + 9] == 't' || s[p + 9] == 'T') by {
                assert(m[9] == 't');
                assert(ascii_lower(s[p + 9]) == m[9]);
                lemma_lower_is_letter(s[p + 9], m[9], 'T');
            }
            assert(s[p + 10] == ' ') by {
                assert(m[10] == ' ');
                assert(ascii_lower(s[p + 10]) == m[10]);
                lemma_lower_is(s[p + 10], m[10]);
            }
            assert(diff_git_text_at(s, p));
        }
    }
    assert(!has_diff(s));
}

/// The text `---` starts at `q`.
pub open spec fn three_dashes_at(s: Seq<char>, q: int) -> bool {
    0 <= q && q + 3 <= s.len() && s[q] == '-' && s[q + 1] == '-' && s[q + 2] == '-'
}

proof fn lemma_no_seps(s: Seq<char>, q: int)
    requires
        0 <= q,
        forall|r: int| !sep_at(s, r),
    ensures
        seps_from(s, q) == Seq::<int>::empty(),
    decreases s.len() - q,
{
    if q < s.len() {
        lemma_no_seps(s, q + 1);
    }
}

/// A body in which a line begins with `diff --git ` (in any letter case) and
/// no line begins with `---` is one patch: the whole body without its
/// surrounding whitespace.
pub proof fn law_diff_without_separator_is_one_patch(s: Seq<char>, p: int)
    requires
        diff_git_text_at(s, p),
        p == 0 || s[p - 1] == '\n',
        forall|q: int| #[trigger] three_dashes_at(s, q) ==> q > 0 && s[q - 1] != '\n',
    ensures
        body_patches(s) == seq![trim(s)],
        trim(s).len() > 0,
{
    let m = diff_marker();
    assert forall|j: int| 0 <= j < 11 implies ascii_lower(#[trigger] s[p + j]) == m[j] by {
        assert(s[p + 0] == s[p]);
    }
    assert(diff_at(s, p));
    assert(has_diff(s));
    assert forall|r: int| !sep_at(s, r) by {
        if sep_at(s, r) {
            assert(three_dashes_at(s, r));
        }
    }
    lemma_no_seps(s, 0);
    let starts = section_starts(s);
    assert(starts == seq![0int]);
    assert(section_end(s, starts, 0) == s.len());
    assert(s.subrange(0, s.len() as int) == s);
    // the body is not all whitespace: it holds `d` or `D` at `p`
    let a = run_end(s, 0, CharClass::Whitespace);
    lemma_run_end(s, 0, CharClass::Whitespace);
    assert(!is_ws(s[p]));
    assert(a <= p) by {
        if a > p {
            assert(class_has(CharClass::Whitespace, s[p]));
        }
    }
    crate::text::lemma_run_start(s, a, s.len() as int, CharClass::Whitespace);
    let z = crate::text::run_start(s, a, s.len() as int, CharClass::Whitespace);
    assert(z > p) by {
        if z <= p {
            assert(class_has(CharClass::Whitespace, s[p]));
        }
    }
    assert(trim(s).len() > 0);
    assert(patches_from(s, starts, 1) == Seq::<Seq<char>>::empty());
}

} // verus!
