//! Character classes, runs of characters, and trimming, over `Seq<char>`
//! in specifications and `Vec<char>` in code.

use vstd::prelude::*;

verus! {

/// Unicode `White_Space`: the set that `char::is_whitespace`, `str::trim`
/// and the regular-expression class `\s` all use.
pub open spec fn is_ws(c: char) -> bool {
    let n = c as u32;
    ||| n == 0x20
    ||| 0x09 <= n <= 0x0d
    ||| n == 0x85
    ||| n == 0xa0
    ||| n == 0x1680
    ||| 0x2000 <= n <= 0x200a
    ||| n == 0x2028
    ||| n == 0x2029
    ||| n == 0x202f
    ||| n == 0x205f
    ||| n == 0x3000
}

pub open spec fn is_ascii_alnum(c: char) -> bool {
    let n = c as u32;
    ||| 0x30 <= n <= 0x39
    ||| 0x41 <= n <= 0x5a
    ||| 0x61 <= n <= 0x7a
}

/// The classes of characters that the matchers scan over.
#[derive(Clone, Copy)]
pub enum CharClass {
    /// `[a-zA-Z0-9._%+-]`: the part of an address before `@`.
    EmailLocal,
    /// `[a-zA-Z0-9.-]`: the part of an address after `@`.
    EmailDomain,
    /// Unicode whitespace.
    Whitespace,
    /// A space or a tab.
    Blank,
    /// Every character but the given one.
    Except(char),
}

pub open spec fn class_has(k: CharClass, c: char) -> bool {
    match k {
        CharClass::EmailLocal => is_ascii_alnum(c) || c == '.' || c == '_' || c == '%' || c == '+'
            || c == '-',
        CharClass::EmailDomain => is_ascii_alnum(c) || c == '.' || c == '-',
        CharClass::Whitespace => is_ws(c),
        CharClass::Blank => c == ' ' || c == '\t',
        CharClass::Except(x) => c != x,
    }
}

pub fn is_whitespace(c: char) -> (b: bool)
    ensures
        b == is_ws(c),
{
    let n = c as u32;
    n == 0x20 || (0x09 <= n && n <= 0x0d) || n == 0x85 || n == 0xa0 || n == 0x1680 || (0x2000 <= n
        && n <= 0x200a) || n == 0x2028 || n == 0x2029 || n == 0x202f || n == 0x205f || n == 0x3000
}

pub fn in_class(k: CharClass, c: char) -> (b: bool)
    ensures
        b == class_has(k, c),
{
    let n = c as u32;
    let alnum = (0x30 <= n && n <= 0x39) || (0x41 <= n && n <= 0x5a) || (0x61 <= n && n <= 0x7a);
    match k {
        CharClass::EmailLocal => alnum || c == '.' || c == '_' || c == '%' || c == '+' || c == '-',
        CharClass::EmailDomain => alnum || c == '.' || c == '-',
        CharClass::Whitespace => is_whitespace(c),
        CharClass::Blank => c == ' ' || c == '\t',
        CharClass::Except(x) => c != x,
    }
}

/// The end of the run of class-`k` characters that starts at `i`: the first
/// index at or after `i` that holds no such character, or the length.
pub open spec fn run_end(s: Seq<char>, i: int, k: CharClass) -> int
    decreases s.len() - i,
{
    if 0 <= i < s.len() && class_has(k, s[i]) {
        run_end(s, i + 1, k)
    } else {
        i
    }
}

/// The start of the run of class-`k` characters that ends at `hi`, not
/// reaching below `lo`.
pub open spec fn run_start(s: Seq<char>, lo: int, hi: int, k: CharClass) -> int
    decreases hi - lo,
{
    if lo < hi && class_has(k, s[hi - 1]) {
        run_start(s, lo, hi - 1, k)
    } else {
        hi
    }
}

/// The index of the first `c` at or after `i`, or the length when there is none.
pub open spec fn first_from(s: Seq<char>, i: int, c: char) -> int {
    run_end(s, i, CharClass::Except(c))
}

/// `s` with leading and trailing whitespace removed.
pub open spec fn trim(s: Seq<char>) -> Seq<char> {
    let a = run_end(s, 0, CharClass::Whitespace);
    s.subrange(a, run_start(s, a, s.len() as int, CharClass::Whitespace))
}

pub proof fn lemma_run_end(s: Seq<char>, i: int, k: CharClass)
    requires
        0 <= i <= s.len(),
    ensures
        i <= run_end(s, i, k) <= s.len(),
        forall|j: int| i <= j < run_end(s, i, k) ==> class_has(k, #[trigger] s[j]),
        run_end(s, i, k) < s.len() ==> !class_has(k, s[run_end(s, i, k)]),
    decreases s.len() - i,
{
    if i < s.len() && class_has(k, s[i]) {
        lemma_run_end(s, i + 1, k);
    }
}

/// A run end is determined by its defining properties.
pub proof fn lemma_run_end_is(s: Seq<char>, i: int, e: int, k: CharClass)
    requires
        0 <= i <= e <= s.len(),
        forall|j: int| i <= j < e ==> class_has(k, #[trigger] s[j]),
        e < s.len() ==> !class_has(k, s[e]),
    ensures
        run_end(s, i, k) == e,
    decreases e - i,
{
    if i < e {
        assert(class_has(k, s[i]));
        lemma_run_end_is(s, i + 1, e, k);
    }
}

pub proof fn lemma_run_start(s: Seq<char>, lo: int, hi: int, k: CharClass)
    requires
        0 <= lo <= hi <= s.len(),
    ensures
        lo <= run_start(s, lo, hi, k) <= hi,
        forall|j: int| run_start(s, lo, hi, k) <= j < hi ==> class_has(k, #[trigger] s[j]),
        run_start(s, lo, hi, k) > lo ==> !class_has(k, s[run_start(s, lo, hi, k) - 1]),
    decreases hi - lo,
{
    if lo < hi && class_has(k, s[hi - 1]) {
        lemma_run_start(s, lo, hi - 1, k);
    }
}

pub proof fn lemma_run_start_is(s: Seq<char>, lo: int, w: int, hi: int, k: CharClass)
    requires
        0 <= lo <= w <= hi <= s.len(),
        forall|j: int| w <= j < hi ==> class_has(k, #[trigger] s[j]),
        w > lo ==> !class_has(k, s[w - 1]),
    ensures
        run_start(s, lo, hi, k) == w,
    decreases hi - w,
{
    if w < hi {
        assert(class_has(k, s[hi - 1]));
        lemma_run_start_is(s, lo, w, hi - 1, k);
    }
}

/// Scans the run of class-`k` characters that starts at `i`.
pub fn scan_run(v: &Vec<char>, i: usize, k: CharClass) -> (e: usize)
    requires
        i <= v.len(),
    ensures
        e == run_end(v@, i as int, k),
        i <= e <= v.len(),
{
    let mut j = i;
    while j < v.len() && in_class(k, v[j])
        invariant
            i <= j <= v.len(),
            forall|m: int| i <= m < j ==> class_has(k, #[trigger] v@[m]),
        decreases v.len() - j,
    {
        j = j + 1;
    }
    proof {
        lemma_run_end_is(v@, i as int, j as int, k);
    }
    j
}

/// Scans backwards the run of class-`k` characters that ends at `hi`.
pub fn scan_run_back(v: &Vec<char>, lo: usize, hi: usize, k: CharClass) -> (w: usize)
    requires
        lo <= hi <= v.len(),
    ensures
        w == run_start(v@, lo as int, hi as int, k),
        lo <= w <= hi,
{
    let mut w = hi;
    while w > lo && in_class(k, v[w - 1])
        invariant
            lo <= w <= hi <= v.len(),
            forall|m: int| w <= m < hi ==> class_has(k, #[trigger] v@[m]),
        decreases w - lo,
    {
        w = w - 1;
    }
    proof {
        lemma_run_start_is(v@, lo as int, w as int, hi as int, k);
    }
    w
}

/// The bounds of `trim(v@)` within `v`.
pub fn trim_bounds(v: &Vec<char>) -> (r: (usize, usize))
    ensures
        r.0 <= r.1 <= v.len(),
        v@.subrange(r.0 as int, r.1 as int) == trim(v@),
{
    let a = scan_run(v, 0, CharClass::Whitespace);
    let b = scan_run_back(v, a, v.len(), CharClass::Whitespace);
    (a, b)
}

/// Copies the characters of a string slice into a vector.
pub fn chars_of(s: &str) -> (res: Vec<char>)
    ensures
        res@ == s@,
{
    let mut res: Vec<char> = Vec::new();
    for c in it: s.chars()
        invariant
            res@ == it.seq().take(it.index() as int),
    {
        res.push(c);
    }
    res
}

/// `String::push` of std: appends `c` to `s`.
#[verifier::external_body]
pub(crate) fn push_char(s: &mut String, c: char)
    ensures
        final(s)@ == old(s)@.push(c),
{
    s.push(c);
}

/// A string of the characters `v[lo..hi]`.
pub fn string_of(v: &Vec<char>, lo: usize, hi: usize) -> (s: String)
    requires
        lo <= hi <= v.len(),
    ensures
        s@ == v@.subrange(lo as int, hi as int),
{
    let mut s = String::new();
    let mut i = lo;
    while i < hi
        invariant
            lo <= i <= hi <= v.len(),
            s@ == v@.subrange(lo as int, i as int),
        decreases hi - i,
    {
        push_char(&mut s, v[i]);
        assert(v@.subrange(lo as int, i + 1) == v@.subrange(lo as int, i as int).push(v@[i as int]));
        i = i + 1;
    }
    s
}

/// Appends `v[lo..hi]` to `out`.
pub fn extend_range(out: &mut Vec<char>, v: &Vec<char>, lo: usize, hi: usize)
    requires
        lo <= hi <= v.len(),
    ensures
        final(out)@ == old(out)@ + v@.subrange(lo as int, hi as int),
{
    let ghost start = out@;
    let mut i = lo;
    while i < hi
        invariant
            lo <= i <= hi <= v.len(),
            out@ == start + v@.subrange(lo as int, i as int),
        decreases hi - i,
    {
        out.push(v[i]);
        assert(v@.subrange(lo as int, i + 1) == v@.subrange(lo as int, i as int).push(v@[i as int]));
        i = i + 1;
    }
}

/// Appends the characters of `s` to `out`.
pub fn extend_str(out: &mut Vec<char>, s: &str)
    ensures
        final(out)@ == old(out)@ + s@,
{
    let v = chars_of(s);
    extend_range(out, &v, 0, v.len());
    assert(v@.subrange(0, v@.len() as int) == v@);
}

} // verus!
