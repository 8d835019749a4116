//! Anonymization of identities: every `Name <address>` and every bare
//! address in a text is replaced by SHA-1 hashes.

use std::borrow::Cow;

use vstd::prelude::*;

pub use crate::hashing::generate_sha1_hash;

use crate::hashing::sha1_hex;
use crate::identity::{bracket_ok, check_bracket, find_email, lemma_next_email, next_email, opt_pair};
use crate::text::{
    chars_of, extend_range, extend_str, first_from, lemma_run_end, push_char,
    run_end, run_start, scan_run, scan_run_back, string_of, trim, trim_bounds, CharClass,
};

verus! {

// ------------------------------------------------------------ specification

/// The characters that end a header field name or separate identities: `:`, `,`, `;`.
pub open spec fn is_sep(c: char) -> bool {
    c == ':' || c == ',' || c == ';'
}

/// The index of the last separator (`:`, `,`, `;`) before `hi`, or -1.
pub open spec fn last_sep(t: Seq<char>, hi: int) -> int
    decreases hi,
{
    if hi <= 0 {
        -1
    } else if is_sep(t[hi - 1]) {
        hi - 1
    } else {
        last_sep(t, hi - 1)
    }
}

/// Splits the text before an identity into `(name, prefix)`: the prefix runs
/// up to and including the last separator and the spaces and tabs after it;
/// the name is the rest, trimmed. Without a separator the whole trimmed text
/// is the name.
pub open spec fn name_and_prefix(t: Seq<char>) -> (Seq<char>, Seq<char>) {
    if t.len() == 0 {
        (seq![], seq![])
    } else {
        let idx = last_sep(t, t.len() as int);
        if idx >= 0 {
            let w = run_end(t, idx + 1, CharClass::Blank);
            (trim(t.subrange(w, t.len() as int)), t.subrange(0, w))
        } else {
            (trim(t), seq![])
        }
    }
}

/// What a bracketed identity becomes, given the text before `<` (without the
/// whitespace just before it) and the text between `<` and `>`.
pub open spec fn bracketed_replacement(before: Seq<char>, email: Seq<char>) -> Seq<char> {
    let np = name_and_prefix(before);
    if np.0.len() > 0 {
        np.1 + sha1_hex(np.0) + seq![' ', '<'] + sha1_hex(email) + seq!['>']
    } else {
        before + seq!['<'] + sha1_hex(email) + seq!['>']
    }
}

/// What a bare address becomes, given the text between it and the previous
/// replaced address (or the start of the line).
pub open spec fn bare_replacement(before: Seq<char>, email: Seq<char>) -> Seq<char> {
    let np = name_and_prefix(before);
    if np.0.len() > 0 {
        np.1 + sha1_hex(np.0) + seq![' ', '<'] + sha1_hex(email) + seq!['>']
    } else {
        before + sha1_hex(email)
    }
}

/// The first pass over a line, from position `p`: each bracketed identity,
/// together with all text since the previous one, is replaced.
pub open spec fn bracket_pass(s: Seq<char>, p: int) -> Seq<char>
    decreases s.len() - p,
{
    if p < 0 || p >= s.len() {
        seq![]
    } else {
        let l = first_from(s, p, '<');
        if l >= s.len() {
            s.subrange(p, s.len() as int)
        } else {
            let g = first_from(s, l + 1, '>');
            proof {
                lemma_run_end(s, p, CharClass::Except('<'));
                lemma_run_end(s, l + 1, CharClass::Except('>'));
            }
            if g < s.len() && bracket_ok(s, l, g) {
                bracketed_replacement(
                    s.subrange(p, run_start(s, p, l, CharClass::Whitespace)),
                    s.subrange(l + 1, g),
                ) + bracket_pass(s, g + 1)
            } else {
                s.subrange(p, l + 1) + bracket_pass(s, l + 1)
            }
        }
    }
}

/// The second pass over a line: bare addresses found from `p` on, with `last`
/// the end of the text already written. An address right after `<` or right
/// before `>` is left as it is.
pub open spec fn email_pass(s: Seq<char>, p: int, last: int) -> Seq<char>
    decreases s.len() - p,
{
    if p < 0 {
        seq![]
    } else {
        match next_email(s, p) {
            None => s.subrange(last, s.len() as int),
            Some((b, e)) => {
                proof {
                    lemma_next_email(s, p);
                }
                if (b > 0 && s[b - 1] == '<') || (e < s.len() && s[e] == '>') {
                    email_pass(s, e, last)
                } else {
                    bare_replacement(s.subrange(last, b), s.subrange(b, e)) + email_pass(s, e, e)
                }
            },
        }
    }
}

/// A line with its identities replaced.
pub open spec fn anonymized_line(line: Seq<char>) -> Seq<char> {
    email_pass(bracket_pass(line, 0), 0, 0)
}

/// The lines of `s` from position `pos` on, each anonymized, joined by `\n`.
pub open spec fn anonymized_lines(s: Seq<char>, pos: int) -> Seq<char>
    decreases s.len() - pos,
{
    if pos < 0 || pos > s.len() {
        seq![]
    } else {
        let i = first_from(s, pos, '\n');
        proof {
            lemma_run_end(s, pos, CharClass::Except('\n'));
        }
        if i >= s.len() {
            anonymized_line(s.subrange(pos, s.len() as int))
        } else {
            anonymized_line(s.subrange(pos, i)) + seq!['\n'] + anonymized_lines(s, i + 1)
        }
    }
}

/// The anonymized text: its lines anonymized one by one.
pub open spec fn anonymized(s: Seq<char>) -> Seq<char> {
    if s.len() == 0 {
        seq![]
    } else {
        anonymized_lines(s, 0)
    }
}

// ------------------------------------------------------------ implementation

/// Find the last separator character (`,`, `;`, `:`) in `text_before` and
/// split it into a (name, prefix) pair. The prefix includes the separator and
/// any trailing whitespace, while the name is the text after it (trimmed).
pub fn extract_name_and_prefix(text_before: &str) -> (r: (String, String))
    ensures
        (r.0@, r.1@) == name_and_prefix(text_before@),
{
    if text_before.is_empty() {
        return (String::new(), String::new());
    }
    let t = chars_of(text_before);
    let mut i = t.len();
    while i > 0 && !(t[i - 1] == ':' || t[i - 1] == ',' || t[i - 1] == ';')
        invariant
            i <= t.len(),
            last_sep(t@, t.len() as int) == last_sep(t@, i as int),
        decreases i,
    {
        i = i - 1;
    }
    if i > 0 {
        let ws_end = scan_run(&t, i, CharClass::Blank);
        let mut rest: Vec<char> = Vec::new();
        extend_range(&mut rest, &t, ws_end, t.len());
        assert(rest@ == t@.subrange(ws_end as int, t.len() as int));
        let (a, b) = trim_bounds(&rest);
        (string_of(&rest, a, b), string_of(&t, 0, ws_end))
    } else {
        let (a, b) = trim_bounds(&t);
        (string_of(&t, a, b), String::new())
    }
}

/// Hashes the name (if present) and the address of a bracketed identity.
fn replace_bracketed_identity(before: &str, email: &str) -> (res: String)
    ensures
        res@ == bracketed_replacement(before@, email@),
{
    let (name, prefix) = extract_name_and_prefix(before);
    let email_hash = generate_sha1_hash(email);
    if !name.as_str().is_empty() {
        let mut res = prefix;
        res.append(generate_sha1_hash(name.as_str()).as_str());
        push_char(&mut res, ' ');
        push_char(&mut res, '<');
        res.append(email_hash.as_str());
        push_char(&mut res, '>');
        res
    } else {
        let mut res = String::from_str(before);
        push_char(&mut res, '<');
        res.append(email_hash.as_str());
        push_char(&mut res, '>');
        res
    }
}

/// Hashes a bare address and the name written before it, if any.
fn replace_bare_identity(before: &str, email: &str) -> (res: String)
    ensures
        res@ == bare_replacement(before@, email@),
{
    let (name, prefix) = extract_name_and_prefix(before);
    let email_hash = generate_sha1_hash(email);
    if !name.as_str().is_empty() {
        let mut res = prefix;
        res.append(generate_sha1_hash(name.as_str()).as_str());
        push_char(&mut res, ' ');
        push_char(&mut res, '<');
        res.append(email_hash.as_str());
        push_char(&mut res, '>');
        res
    } else {
        let mut res = String::from_str(before);
        res.append(email_hash.as_str());
        res
    }
}

/// The first pass: bracketed identities.
fn replace_bracketed_all(v: &Vec<char>) -> (out: Vec<char>)
    ensures
        out@ == bracket_pass(v@, 0),
{
    let mut out: Vec<char> = Vec::new();
    let mut p: usize = 0;
    while p < v.len()
        invariant
            p <= v.len(),
            out@ + bracket_pass(v@, p as int) == bracket_pass(v@, 0),
        decreases v.len() - p,
    {
        let ghost old_out = out@;
        let l = scan_run(v, p, CharClass::Except('<'));
        if l >= v.len() {
            extend_range(&mut out, v, p, v.len());
            p = v.len();
            assert(out@ + bracket_pass(v@, p as int) == out@);
        } else {
            let g = scan_run(v, l + 1, CharClass::Except('>'));
            if g < v.len() && check_bracket(v, l, g) {
                let w = scan_run_back(v, p, l, CharClass::Whitespace);
                let before = string_of(v, p, w);
                let email = string_of(v, l + 1, g);
                let rep = replace_bracketed_identity(before.as_str(), email.as_str());
                extend_str(&mut out, rep.as_str());
                assert(bracket_pass(v@, p as int) == rep@ + bracket_pass(v@, g + 1));
                assert(old_out + (rep@ + bracket_pass(v@, g + 1)) == out@ + bracket_pass(v@, g + 1));
                p = g + 1;
            } else {
                extend_range(&mut out, v, p, l + 1);
                assert(old_out + (v@.subrange(p as int, l + 1) + bracket_pass(v@, l + 1)) == out@
                    + bracket_pass(v@, l + 1));
                p = l + 1;
            }
        }
    }
    assert(out@ + bracket_pass(v@, p as int) == out@);
    out
}

/// The second pass: bare addresses.
fn replace_bare_all(v: &Vec<char>) -> (out: Vec<char>)
    ensures
        out@ == email_pass(v@, 0, 0),
{
    let mut out: Vec<char> = Vec::new();
    let mut p: usize = 0;
    let mut last: usize = 0;
    let mut next = find_email(v, 0);
    while next.is_some()
        invariant
            last <= p <= v.len(),
            opt_pair(next) == next_email(v@, p as int),
            out@ + email_pass(v@, p as int, last as int) == email_pass(v@, 0, 0),
        decreases v.len() - p,
    {
        let (b, e) = next.unwrap();
        proof {
            lemma_next_email(v@, p as int);
        }
        let ghost old_out = out@;
        if (b > 0 && v[b - 1] == '<') || (e < v.len() && v[e] == '>') {
            p = e;
        } else {
            let before = string_of(v, last, b);
            let email = string_of(v, b, e);
            let rep = replace_bare_identity(before.as_str(), email.as_str());
            extend_str(&mut out, rep.as_str());
            assert(old_out + (rep@ + email_pass(v@, e as int, e as int)) == out@ + email_pass(
                v@,
                e as int,
                e as int,
            ));
            p = e;
            last = e;
        }
        next = find_email(v, p);
    }
    extend_range(&mut out, v, last, v.len());
    out
}

/// Process a single line: replace bracketed identities first, then bare emails.
fn anonymize_line(line: &str) -> (res: String)
    ensures
        res@ == anonymized_line(line@),
{
    let v = chars_of(line);
    let bracketed = replace_bracketed_all(&v);
    let out = replace_bare_all(&bracketed);
    let res = string_of(&out, 0, out.len());
    assert(out@.subrange(0, out@.len() as int) == out@);
    res
}

/// Apply SHA-1 anonymization to identities within a string.
///
/// Detects `Name <email>` patterns and bare email addresses, replacing them
/// with SHA-1 hashes. Processes line by line to avoid matching identities
/// split across multiple lines.
///
/// Returns the string unchanged if no identities are found.
pub fn anonymize_string(input: &str) -> (res: String)
    ensures
        res@ == anonymized(input@),
{
    if input.is_empty() {
        return String::new();
    }
    let v = chars_of(input);
    let mut res = String::new();
    let mut pos: usize = 0;
    loop
        invariant
            pos <= v.len(),
            v@ == input@,
            res@ + anonymized_lines(v@, pos as int) == anonymized_lines(v@, 0),
        ensures
            res@ == anonymized_lines(v@, 0),
        decreases v.len() - pos,
    {
        let i = scan_run(&v, pos, CharClass::Except('\n'));
        let line = string_of(&v, pos, i);
        let done = anonymize_line(line.as_str());
        let ghost old_res = res@;
        res.append(done.as_str());
        if i >= v.len() {
            return res;
        }
        push_char(&mut res, '\n');
        assert(old_res + (done@ + seq!['\n'] + anonymized_lines(v@, i + 1)) == res@
            + anonymized_lines(v@, i + 1));
        pos = i + 1;
    }
}

/// Like `anonymize_string` but returns `Cow::Borrowed` when no identities are found,
/// avoiding allocation for text that doesn't contain emails or names.
pub fn maybe_anonymize(v: &str) -> (res: Cow<'_, str>)
    ensures
        res@ == anonymized(v@),
        res is Borrowed <==> anonymized(v@) == v@,
{
    let hashed = anonymize_string(v);
    let unchanged = String::from_str(v);
    if hashed == unchanged {
        Cow::Borrowed(v)
    } else {
        Cow::Owned(hashed)
    }
}

} // verus!
