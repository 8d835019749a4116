//! The two patterns that identify a person in mailing-list text, as
//! functions on characters: a bracketed identity `Name <local@domain>`, and a
//! bare address `local@domain`.
//!
//! Both are scanned the way a leftmost-first regular-expression search scans:
//! the bracket pattern `([^<]*?)\s*<([^>]+@[^>]+)>` and the address pattern
//! `[a-zA-Z0-9._%+-]+@[a-zA-Z0-9.-]+(?:\.[a-zA-Z]{2,})?`.

use vstd::prelude::*;

use crate::text::{class_has, in_class, lemma_run_end, lemma_run_end_is, run_end, scan_run, CharClass};

verus! {

// ---------------------------------------------------------------- addresses

/// The end of the address that starts at `i`, if one does: the longest run of
/// local characters from `i`, then `@`, then the longest run of domain
/// characters (at least one).
pub open spec fn email_end_at(s: Seq<char>, i: int) -> Option<int> {
    if 0 <= i < s.len() && class_has(CharClass::EmailLocal, s[i]) {
        let r = run_end(s, i, CharClass::EmailLocal);
        if r + 1 < s.len() && s[r] == '@' && class_has(CharClass::EmailDomain, s[r + 1]) {
            Some(run_end(s, r + 1, CharClass::EmailDomain))
        } else {
            None
        }
    } else {
        None
    }
}

/// The leftmost address at or after `p`, as `(start, end)`.
pub open spec fn next_email(s: Seq<char>, p: int) -> Option<(int, int)>
    decreases s.len() - p,
{
    if p < 0 || p >= s.len() {
        None
    } else {
        match email_end_at(s, p) {
            Some(e) => Some((p, e)),
            None => next_email(s, p + 1),
        }
    }
}

pub proof fn lemma_email_end_at(s: Seq<char>, i: int)
    requires
        email_end_at(s, i) is Some,
    ensures
        i + 3 <= email_end_at(s, i)->0 <= s.len(),
        s.subrange(i, email_end_at(s, i)->0).contains('@'),
{
    let r = run_end(s, i, CharClass::EmailLocal);
    lemma_run_end(s, i, CharClass::EmailLocal);
    lemma_run_end(s, r + 1, CharClass::EmailDomain);
    let e = email_end_at(s, i)->0;
    assert(s.subrange(i, e)[r - i] == '@');
}

pub proof fn lemma_next_email(s: Seq<char>, p: int)
    requires
        0 <= p,
    ensures
        next_email(s, p) matches Some((b, e)) ==> {
            &&& p <= b
            &&& b + 3 <= e <= s.len()
            &&& email_end_at(s, b) == Some(e)
        },
    decreases s.len() - p,
{
    if p < s.len() {
        match email_end_at(s, p) {
            Some(e) => lemma_email_end_at(s, p),
            None => lemma_next_email(s, p + 1),
        }
    }
}

/// Positions where no address starts may be skipped.
pub proof fn lemma_skip_emails(s: Seq<char>, i: int, j: int)
    requires
        0 <= i <= j <= s.len(),
        forall|k: int| i <= k < j ==> #[trigger] email_end_at(s, k) is None,
    ensures
        next_email(s, i) == next_email(s, j),
    decreases j - i,
{
    if i < j {
        assert(email_end_at(s, i) is None);
        lemma_skip_emails(s, i + 1, j);
    }
}

/// Within a run of local characters not followed by `@` and a domain
/// character, no address starts.
proof fn lemma_run_holds_no_email(s: Seq<char>, i: int, r: int)
    requires
        0 <= i < s.len(),
        r == run_end(s, i, CharClass::EmailLocal),
        !(r + 1 < s.len() && s[r] == '@' && class_has(CharClass::EmailDomain, s[r + 1])),
    ensures
        forall|k: int| i <= k <= r && k < s.len() ==> #[trigger] email_end_at(s, k) is None,
{
    lemma_run_end(s, i, CharClass::EmailLocal);
    assert forall|k: int| i <= k <= r && k < s.len() implies #[trigger] email_end_at(s, k) is None by {
        if k < r {
            lemma_run_end_is(s, k, r, CharClass::EmailLocal);
        }
    }
}

/// An address position pair as plain integers.
pub open spec fn opt_pair(o: Option<(usize, usize)>) -> Option<(int, int)> {
    match o {
        Some((a, b)) => Some((a as int, b as int)),
        None => None,
    }
}

/// Finds the leftmost address in `v` at or after `p`.
pub fn find_email(v: &Vec<char>, p: usize) -> (r: Option<(usize, usize)>)
    requires
        p <= v.len(),
    ensures
        opt_pair(r) == next_email(v@, p as int),
{
    let mut i = p;
    while i < v.len()
        invariant
            p <= i <= v.len(),
            next_email(v@, p as int) == next_email(v@, i as int),
        decreases v.len() - i,
    {
        if !in_class(CharClass::EmailLocal, v[i]) {
            assert(email_end_at(v@, i as int) is None);
            i = i + 1;
        } else {
            let r = scan_run(v, i, CharClass::EmailLocal);
            if r < v.len() && r + 1 < v.len() && v[r] == '@' && in_class(CharClass::EmailDomain, v[r + 1]) {
                let e = scan_run(v, r + 1, CharClass::EmailDomain);
                return Some((i, e));
            }
            proof {
                lemma_run_holds_no_email(v@, i as int, r as int);
            }
            if r >= v.len() {
                proof {
                    lemma_skip_emails(v@, i as int, v.len() as int);
                }
                return None;
            }
            proof {
                lemma_skip_emails(v@, i as int, r + 1);
            }
            i = r + 1;
        }
    }
    None
}

// ------------------------------------------------------- bracketed identities

/// The text between `<` at `l` and `>` at `g` holds an `@` with at least one
/// character on each side.
pub open spec fn bracket_ok(s: Seq<char>, l: int, g: int) -> bool {
    exists|k: int| l + 2 <= k <= g - 2 && #[trigger] s[k] == '@'
}

/// Whether `v[l+1..g]` is a valid bracketed address.
pub fn check_bracket(v: &Vec<char>, l: usize, g: usize) -> (b: bool)
    requires
        l < g <= v.len(),
    ensures
        b == bracket_ok(v@, l as int, g as int),
{
    if g - l < 4 {
        return false;
    }
    let mut k = l + 2;
    while k <= g - 2
        invariant
            l + 2 <= k,
            l + 4 <= g <= v.len(),
            forall|m: int| l + 2 <= m < k ==> #[trigger] v@[m] != '@',
        decreases g - k,
    {
        if v[k] == '@' {
            return true;
        }
        k = k + 1;
    }
    false
}

} // verus!
