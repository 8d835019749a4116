//! What holds of anonymization for every input, proved from the
//! specifications the functions are verified against.

use vstd::prelude::*;

use crate::anonymizer::{
    anonymized, anonymized_line, anonymized_lines, bare_replacement, bracket_pass,
    bracketed_replacement, email_pass, is_sep, last_sep, name_and_prefix,
};
use crate::frame::{
    cell_view, column_anonymized, first_column, frame_anonymized, id_map_of, is_str_target,
    lemma_first_column, rows, ColumnData, FieldValues, Frame,
};
use crate::hashing::{is_hex_lower_char, lemma_sha1_hex, sha1_hex};
use crate::identity::{bracket_ok, email_end_at, lemma_skip_emails, next_email};
use crate::text::{
    class_has, first_from, is_ws, lemma_run_end, lemma_run_end_is, lemma_run_start_is, run_end,
    run_start, trim, CharClass,
};

verus! {

/// Without `@`, no address starts anywhere.
proof fn lemma_no_at_no_email(s: Seq<char>, p: int)
    requires
        0 <= p <= s.len(),
        forall|i: int| 0 <= i < s.len() ==> s[i] != '@',
    ensures
        next_email(s, p) is None,
{
    assert forall|k: int| p <= k < s.len() implies #[trigger] email_end_at(s, k) is None by {
        if 0 <= k < s.len() && class_has(CharClass::EmailLocal, s[k]) {
            lemma_run_end(s, k, CharClass::EmailLocal);
        }
    }
    lemma_skip_emails(s, p, s.len() as int);
}

proof fn lemma_no_at_bracket_pass(s: Seq<char>, p: int)
    requires
        0 <= p <= s.len(),
        forall|i: int| 0 <= i < s.len() ==> s[i] != '@',
    ensures
        bracket_pass(s, p) == s.subrange(p, s.len() as int),
    decreases s.len() - p,
{
    if p < s.len() {
        let l = first_from(s, p, '<');
        lemma_run_end(s, p, CharClass::Except('<'));
        if l < s.len() {
            let g = first_from(s, l + 1, '>');
            lemma_run_end(s, l + 1, CharClass::Except('>'));
            assert(!bracket_ok(s, l, g));
            lemma_no_at_bracket_pass(s, l + 1);
            assert(s.subrange(p, l + 1) + s.subrange(l + 1, s.len() as int) == s.subrange(
                p,
                s.len() as int,
            ));
        }
    }
}

proof fn lemma_no_at_line(line: Seq<char>)
    requires
        forall|i: int| 0 <= i < line.len() ==> line[i] != '@',
    ensures
        anonymized_line(line) == line,
{
    lemma_no_at_bracket_pass(line, 0);
    assert(line.subrange(0, line.len() as int) == line);
    lemma_no_at_no_email(line, 0);
}

proof fn lemma_no_at_lines(s: Seq<char>, pos: int)
    requires
        0 <= pos <= s.len(),
        forall|i: int| 0 <= i < s.len() ==> s[i] != '@',
    ensures
        anonymized_lines(s, pos) == s.subrange(pos, s.len() as int),
    decreases s.len() - pos,
{
    let i = first_from(s, pos, '\n');
    lemma_run_end(s, pos, CharClass::Except('\n'));
    if i >= s.len() {
        lemma_no_at_line(s.subrange(pos, s.len() as int));
    } else {
        lemma_no_at_line(s.subrange(pos, i));
        lemma_no_at_lines(s, i + 1);
        assert(s.subrange(pos, i) + seq!['\n'] + s.subrange(i + 1, s.len() as int) == s.subrange(
            pos,
            s.len() as int,
        ));
    }
}

/// A text without `@` holds no identity, and anonymization leaves it as it is.
pub proof fn law_text_without_at_is_unchanged(s: Seq<char>)
    requires
        forall|i: int| 0 <= i < s.len() ==> s[i] != '@',
    ensures
        anonymized(s) == s,
{
    if s.len() > 0 {
        lemma_no_at_lines(s, 0);
        assert(s.subrange(0, s.len() as int) == s);
    }
}

proof fn lemma_no_sep(t: Seq<char>, hi: int)
    requires
        0 <= hi <= t.len(),
        forall|i: int| 0 <= i < t.len() ==> !is_sep(t[i]),
    ensures
        last_sep(t, hi) == -1,
    decreases hi,
{
    if hi > 0 {
        lemma_no_sep(t, hi - 1);
    }
}

/// Cut at the end of its trimmed part, a name without separators is its own
/// name part, trimmed, with no prefix.
proof fn lemma_trimmed_name(name: Seq<char>)
    requires
        trim(name).len() > 0,
        forall|i: int| 0 <= i < name.len() ==> !is_sep(name[i]),
    ensures
        ({
            let a = run_end(name, 0, CharClass::Whitespace);
            let z = run_start(name, a, name.len() as int, CharClass::Whitespace);
            &&& 0 <= a < z <= name.len()
            &&& !is_ws(name[z - 1])
            &&& forall|j: int| z <= j < name.len() ==> is_ws(#[trigger] name[j])
            &&& name_and_prefix(name.subrange(0, z)) == (trim(name), Seq::<char>::empty())
        }),
{
    let n = name.len() as int;
    let a = run_end(name, 0, CharClass::Whitespace);
    lemma_run_end(name, 0, CharClass::Whitespace);
    let z = run_start(name, a, n, CharClass::Whitespace);
    crate::text::lemma_run_start(name, a, n, CharClass::Whitespace);
    assert forall|j: int| z <= j < n implies is_ws(#[trigger] name[j]) by {
        assert(class_has(CharClass::Whitespace, name[j]));
    }
    let before = name.subrange(0, z);
    lemma_no_sep(before, z);
    assert forall|j: int| 0 <= j < a implies class_has(CharClass::Whitespace, #[trigger] before[j]) by {
        assert(before[j] == name[j]);
    }
    lemma_run_end_is(before, 0, a, CharClass::Whitespace);
    lemma_run_start_is(before, a, z, z, CharClass::Whitespace);
    assert(trim(before) == before.subrange(a, z));
    assert(before.subrange(a, z) == trim(name));
}

proof fn lemma_hash_shape_has_no_at(a: Seq<char>, b: Seq<char>)
    ensures
        forall|i: int|
            0 <= i < (sha1_hex(a) + seq![' ', '<'] + sha1_hex(b) + seq!['>']).len() ==> (sha1_hex(a)
                + seq![' ', '<'] + sha1_hex(b) + seq!['>'])[i] != '@',
{
    lemma_sha1_hex(a);
    lemma_sha1_hex(b);
    let r = sha1_hex(a) + seq![' ', '<'] + sha1_hex(b) + seq!['>'];
    assert forall|i: int| 0 <= i < r.len() implies r[i] != '@' by {
        let n = sha1_hex(a).len() as int;
        let m = sha1_hex(b).len() as int;
        if i < n {
            assert(is_hex_lower_char(sha1_hex(a)[i]));
        } else if n + 2 <= i < n + 2 + m {
            assert(is_hex_lower_char(sha1_hex(b)[i - n - 2]));
        }
    }
}

/// `Name <address>` becomes `hash(Name) <hash(address)>`, the name hashed
/// without its surrounding whitespace: for a line that is one bracketed
/// identity, whose name is not blank and holds no `<` and no separator, and
/// whose bracketed part holds an `@` with text on each side. The hash of the
/// address does not depend on the name it comes with.
pub proof fn law_named_identity_is_hashed(name: Seq<char>, email: Seq<char>)
    requires
        trim(name).len() > 0,
        forall|i: int|
            0 <= i < name.len() ==> name[i] != '<' && name[i] != '\n' && !is_sep(name[i]),
        forall|i: int| 0 <= i < email.len() ==> email[i] != '>' && email[i] != '\n',
        exists|k: int| 1 <= k <= email.len() - 2 && email[k] == '@',
    ensures
        anonymized(name + seq![' ', '<'] + email + seq!['>']) == sha1_hex(trim(name)) + seq![
            ' ',
            '<',
        ] + sha1_hex(email) + seq!['>'],
{
    let s = name + seq![' ', '<'] + email + seq!['>'];
    let n = name.len() as int;
    let len = s.len() as int;
    let r = sha1_hex(trim(name)) + seq![' ', '<'] + sha1_hex(email) + seq!['>'];
    // the line break and the brackets
    assert forall|i: int| 0 <= i < len implies s[i] != '\n' by {
        if i < n {
            assert(s[i] == name[i]);
        } else if n + 2 <= i < len - 1 {
            assert(s[i] == email[i - n - 2]);
        }
    }
    lemma_run_end_is(s, 0, len, CharClass::Except('\n'));
    assert forall|i: int| 0 <= i < n + 1 implies class_has(CharClass::Except('<'), #[trigger] s[i]) by {
        if i < n {
            assert(s[i] == name[i]);
        }
    }
    lemma_run_end_is(s, 0, n + 1, CharClass::Except('<'));
    assert forall|i: int| n + 2 <= i < len - 1 implies class_has(
        CharClass::Except('>'),
        #[trigger] s[i],
    ) by {
        assert(s[i] == email[i - n - 2]);
    }
    lemma_run_end_is(s, n + 2, len - 1, CharClass::Except('>'));
    let k = choose|k: int| 1 <= k <= email.len() - 2 && email[k] == '@';
    assert(s[n + 2 + k] == '@');
    assert(bracket_ok(s, n + 1, len - 1));
    // the whitespace before `<`
    lemma_trimmed_name(name);
    let a = run_end(name, 0, CharClass::Whitespace);
    let z = run_start(name, a, n, CharClass::Whitespace);
    assert forall|j: int| z <= j < n + 1 implies class_has(CharClass::Whitespace, #[trigger] s[j]) by {
        if j < n {
            assert(s[j] == name[j]);
            assert(is_ws(name[j]));
        }
    }
    assert(s[z - 1] == name[z - 1]);
    lemma_run_start_is(s, 0, z, n + 1, CharClass::Whitespace);
    assert(s.subrange(0, z) == name.subrange(0, z));
    assert(s.subrange(n + 2, len - 1) == email);
    assert(Seq::<char>::empty() + sha1_hex(trim(name)) == sha1_hex(trim(name)));
    assert(bracketed_replacement(name.subrange(0, z), email) == r);
    assert(bracket_pass(s, 0) == r + bracket_pass(s, len));
    assert(bracket_pass(s, 0) == r);
    lemma_hash_shape_has_no_at(trim(name), email);
    lemma_no_at_bracket_pass(r, 0);
    assert(r.subrange(0, r.len() as int) == r);
    lemma_no_at_no_email(r, 0);
    assert(email_pass(r, 0, 0) == r);
    assert(s.subrange(0, len) == s);
    assert(anonymized_line(s) == r);
    assert(first_from(s, 0, '\n') == len);
    assert(anonymized_lines(s, 0) == r);
}

/// Spaces and tabs around a name do not reach its hash: `  Name \t <address>`
/// becomes `hash(Name) <hash(address)>`, for a name that neither starts nor
/// ends with whitespace and holds no `<`, line break or separator.
pub proof fn law_padded_name_is_hashed(
    left: Seq<char>,
    name: Seq<char>,
    right: Seq<char>,
    email: Seq<char>,
)
    requires
        forall|i: int| 0 <= i < left.len() ==> left[i] == ' ' || left[i] == '\t',
        forall|i: int| 0 <= i < right.len() ==> right[i] == ' ' || right[i] == '\t',
        name.len() > 0,
        !is_ws(name[0]),
        !is_ws(name.last()),
        forall|i: int|
            0 <= i < name.len() ==> name[i] != '<' && name[i] != '\n' && !is_sep(name[i]),
        forall|i: int| 0 <= i < email.len() ==> email[i] != '>' && email[i] != '\n',
        exists|k: int| 1 <= k <= email.len() - 2 && email[k] == '@',
    ensures
        anonymized(left + name + right + seq![' ', '<'] + email + seq!['>']) == sha1_hex(name) + seq![
            ' ',
            '<',
        ] + sha1_hex(email) + seq!['>'],
{
    let padded = left + name + right;
    let a = left.len() as int;
    let z = a + name.len();
    let m = padded.len() as int;
    assert forall|j: int| 0 <= j < a implies class_has(CharClass::Whitespace, #[trigger] padded[j]) by {
        assert(padded[j] == left[j]);
    }
    assert(padded[a] == name[0]);
    lemma_run_end_is(padded, 0, a, CharClass::Whitespace);
    assert forall|j: int| z <= j < m implies class_has(CharClass::Whitespace, #[trigger] padded[j]) by {
        assert(padded[j] == right[j - z]);
    }
    assert(padded[z - 1] == name.last());
    lemma_run_start_is(padded, a, z, m, CharClass::Whitespace);
    assert(padded.subrange(a, z) == name);
    assert(trim(padded) == name);
    assert forall|i: int| 0 <= i < m implies padded[i] != '<' && padded[i] != '\n' && !is_sep(
        padded[i],
    ) by {
        if i < a {
            assert(padded[i] == left[i]);
        } else if i < z {
            assert(padded[i] == name[i - a]);
        } else {
            assert(padded[i] == right[i - z]);
        }
    }
    law_named_identity_is_hashed(padded, email);
}

/// A line that is one bare address becomes the address's hash.
pub proof fn law_bare_address_is_hashed(email: Seq<char>, at: int)
    requires
        1 <= at < email.len() - 1,
        email[at] == '@',
        forall|i: int| 0 <= i < at ==> class_has(CharClass::EmailLocal, #[trigger] email[i]),
        forall|i: int| at < i < email.len() ==> class_has(CharClass::EmailDomain, #[trigger] email[i]),
    ensures
        anonymized(email) == sha1_hex(email),
{
    let len = email.len() as int;
    assert forall|i: int| 0 <= i < len implies email[i] != '\n' && email[i] != '<' by {
        if i < at {
            assert(class_has(CharClass::EmailLocal, email[i]));
        } else if i > at {
            assert(class_has(CharClass::EmailDomain, email[i]));
        }
    }
    lemma_run_end_is(email, 0, len, CharClass::Except('\n'));
    lemma_run_end_is(email, 0, len, CharClass::Except('<'));
    assert(bracket_pass(email, 0) == email.subrange(0, len));
    assert(email.subrange(0, len) == email);
    lemma_run_end_is(email, 0, at, CharClass::EmailLocal);
    assert(class_has(CharClass::EmailDomain, email[at + 1]));
    lemma_run_end_is(email, at + 1, len, CharClass::EmailDomain);
    assert(email_end_at(email, 0) == Some(len));
    assert(next_email(email, 0) == Some((0int, len)));
    assert(email.subrange(0, 0) == Seq::<char>::empty());
    assert(name_and_prefix(Seq::<char>::empty()).0.len() == 0);
    assert(bare_replacement(Seq::<char>::empty(), email) == Seq::<char>::empty() + sha1_hex(
        email,
    ));
    assert(email_pass(email, len, len) == email.subrange(len, len));
    assert(email_pass(email, 0, 0) == bare_replacement(email.subrange(0, 0), email)
        + email_pass(email, len, len));
    assert(Seq::<char>::empty() + sha1_hex(email) + email.subrange(len, len) == sha1_hex(email));
}

proof fn lemma_last_sep_is(t: Seq<char>, hi: int, k: int)
    requires
        0 <= k < hi <= t.len(),
        is_sep(t[k]),
        forall|j: int| k < j < hi ==> !is_sep(t[j]),
    ensures
        last_sep(t, hi) == k,
    decreases hi,
{
    if hi - 1 > k {
        lemma_last_sep_is(t, hi - 1, k);
    }
}

proof fn lemma_trim_exact(name: Seq<char>)
    requires
        name.len() > 0,
        !is_ws(name[0]),
        !is_ws(name.last()),
    ensures
        trim(name) == name,
{
    lemma_run_end_is(name, 0, 0, CharClass::Whitespace);
    lemma_run_start_is(name, 0, name.len() as int, name.len() as int, CharClass::Whitespace);
    assert(name.subrange(0, name.len() as int) == name);
}

/// The text before an identity splits at its last separator (`:`, `,` or
/// `;`): the prefix is everything up to it and the spaces and tabs after it,
/// and the name is the rest, for a rest that neither starts nor ends with
/// whitespace and holds no separator.
pub proof fn law_name_follows_last_separator(head: Seq<char>, sep: char, blanks: Seq<char>, name: Seq<char>)
    requires
        sep == ':' || sep == ',' || sep == ';',
        forall|i: int| 0 <= i < blanks.len() ==> blanks[i] == ' ' || blanks[i] == '\t',
        name.len() > 0,
        !is_ws(name[0]),
        !is_ws(name.last()),
        forall|i: int| 0 <= i < name.len() ==> !is_sep(name[i]),
    ensures
        name_and_prefix(head + seq![sep] + blanks + name) == (name, head + seq![sep] + blanks),
{
    let pre = head + seq![sep] + blanks;
    let before = pre + name;
    let hl = head.len() as int;
    let p = pre.len() as int;
    let n = before.len() as int;
    assert(before[hl] == sep);
    assert forall|j: int| hl < j < n implies !is_sep(before[j]) by {
        if j < p {
            assert(before[j] == blanks[j - hl - 1]);
        } else {
            assert(before[j] == name[j - p]);
        }
    }
    lemma_last_sep_is(before, n, hl);
    assert forall|j: int| hl + 1 <= j < p implies class_has(CharClass::Blank, #[trigger] before[j]) by {
        assert(before[j] == blanks[j - hl - 1]);
    }
    assert(before[p] == name[0]);
    lemma_run_end_is(before, hl + 1, p, CharClass::Blank);
    assert(before.subrange(p, n) == name);
    assert(before.subrange(0, p) == pre);
    lemma_trim_exact(name);
}

/// After a header field name and its separator (`:`, `,` or `;`) and the
/// spaces and tabs that follow it, `Name <address>` becomes
/// `hash(Name) <hash(address)>` and everything before the name is kept as
/// it is: for a head without `<`, `@` or line breaks, a name that neither
/// starts nor ends with whitespace and holds no `<`, line break or
/// separator, and a bracketed part with an `@` that has text on each side.
pub proof fn law_header_identity_is_hashed(
    head: Seq<char>,
    sep: char,
    blanks: Seq<char>,
    name: Seq<char>,
    email: Seq<char>,
)
    requires
        forall|i: int| 0 <= i < head.len() ==> head[i] != '<' && head[i] != '\n' && head[i] != '@',
        sep == ':' || sep == ',' || sep == ';',
        forall|i: int| 0 <= i < blanks.len() ==> blanks[i] == ' ' || blanks[i] == '\t',
        name.len() > 0,
        !is_ws(name[0]),
        !is_ws(name.last()),
        forall|i: int|
            0 <= i < name.len() ==> name[i] != '<' && name[i] != '\n' && !is_sep(name[i]),
        forall|i: int| 0 <= i < email.len() ==> email[i] != '>' && email[i] != '\n',
        exists|k: int| 1 <= k <= email.len() - 2 && email[k] == '@',
    ensures
        anonymized(head + seq![sep] + blanks + name + seq![' ', '<'] + email + seq!['>']) == head
            + seq![sep] + blanks + sha1_hex(name) + seq![' ', '<'] + sha1_hex(email) + seq!['>'],
{
    let pre = head + seq![sep] + blanks;
    let before = pre + name;
    let s = before + seq![' ', '<'] + email + seq!['>'];
    let hl = head.len() as int;
    let p = pre.len() as int;
    let n = before.len() as int;
    let len = s.len() as int;
    let hashes = sha1_hex(name) + seq![' ', '<'] + sha1_hex(email) + seq!['>'];
    let r = pre + hashes;
    assert(s == pre + (name + seq![' ', '<'] + email + seq!['>']));
    // no line break
    assert forall|i: int| 0 <= i < len implies s[i] != '\n' by {
        if i < hl {
            assert(s[i] == head[i]);
        } else if hl < i < p {
            assert(s[i] == blanks[i - hl - 1]);
        } else if p <= i < n {
            assert(s[i] == name[i - p]);
        } else if n + 2 <= i < len - 1 {
            assert(s[i] == email[i - n - 2]);
        }
    }
    lemma_run_end_is(s, 0, len, CharClass::Except('\n'));
    // the brackets
    assert forall|i: int| 0 <= i < n + 1 implies class_has(CharClass::Except('<'), #[trigger] s[i]) by {
        if i < hl {
            assert(s[i] == head[i]);
        } else if hl < i < p {
            assert(s[i] == blanks[i - hl - 1]);
        } else if p <= i < n {
            assert(s[i] == name[i - p]);
        }
    }
    lemma_run_end_is(s, 0, n + 1, CharClass::Except('<'));
    assert forall|i: int| n + 2 <= i < len - 1 implies class_has(
        CharClass::Except('>'),
        #[trigger] s[i],
    ) by {
        assert(s[i] == email[i - n - 2]);
    }
    lemma_run_end_is(s, n + 2, len - 1, CharClass::Except('>'));
    let k = choose|k: int| 1 <= k <= email.len() - 2 && email[k] == '@';
    assert(s[n + 2 + k] == '@');
    assert(bracket_ok(s, n + 1, len - 1));
    // the whitespace before `<` is the single space
    assert(s[n - 1] == name.last());
    lemma_run_start_is(s, 0, n, n + 1, CharClass::Whitespace);
    assert(s.subrange(0, n) == before);
    assert(s.subrange(n + 2, len - 1) == email);
    // the name and the prefix
    law_name_follows_last_separator(head, sep, blanks, name);
    assert(bracketed_replacement(before, email) == pre + sha1_hex(name) + seq![' ', '<'] + sha1_hex(
        email,
    ) + seq!['>']);
    assert(bracketed_replacement(before, email) == r);
    assert(bracket_pass(s, 0) == r + bracket_pass(s, len));
    assert(bracket_pass(s, 0) == r);
    // nothing left for the second pass
    lemma_hash_shape_has_no_at(name, email);
    assert forall|i: int| 0 <= i < r.len() implies r[i] != '@' by {
        if i < hl {
            assert(r[i] == head[i]);
        } else if hl < i < p {
            assert(r[i] == blanks[i - hl - 1]);
        } else if i >= p {
            assert(r[i] == hashes[i - p]);
        }
    }
    lemma_no_at_bracket_pass(r, 0);
    lemma_no_at_no_email(r, 0);
    assert(r.subrange(0, r.len() as int) == r);
    assert(email_pass(r, 0, 0) == r);
    assert(s.subrange(0, len) == s);
    assert(anonymized_line(s) == r);
    assert(anonymized_lines(s, 0) == r);
    assert(r == head + seq![sep] + blanks + sha1_hex(name) + seq![' ', '<'] + sha1_hex(email) + seq![
        '>',
    ]);
}

/// A character that may stand before the `@` of an address: an ASCII letter
/// or digit, or one of `.`, `_`, `%`, `+`, `-`.
pub open spec fn address_local_char(c: char) -> bool {
    ||| 'a' <= c <= 'z'
    ||| 'A' <= c <= 'Z'
    ||| '0' <= c <= '9'
    ||| c == '.' || c == '_' || c == '%' || c == '+' || c == '-'
}

/// A character that may stand after the `@` of an address: an ASCII letter
/// or digit, or one of `.`, `-`.
pub open spec fn address_domain_char(c: char) -> bool {
    ||| 'a' <= c <= 'z'
    ||| 'A' <= c <= 'Z'
    ||| '0' <= c <= '9'
    ||| c == '.' || c == '-'
}

/// A line that is exactly one address `local@domain`, with both parts
/// non-empty and made of address characters, becomes the hash of the whole
/// line: no part of the address is left in clear.
pub proof fn law_whole_address_line_is_hashed(local: Seq<char>, domain: Seq<char>)
    requires
        local.len() > 0,
        domain.len() > 0,
        forall|i: int| 0 <= i < local.len() ==> address_local_char(#[trigger] local[i]),
        forall|i: int| 0 <= i < domain.len() ==> address_domain_char(#[trigger] domain[i]),
    ensures
        anonymized(local + seq!['@'] + domain) == sha1_hex(local + seq!['@'] + domain),
{
    let email = local + seq!['@'] + domain;
    let at = local.len() as int;
    assert forall|i: int| 0 <= i < at implies class_has(CharClass::EmailLocal, #[trigger] email[i]) by {
        assert(email[i] == local[i]);
        assert(address_local_char(local[i]));
    }
    assert forall|i: int| at < i < email.len() implies class_has(
        CharClass::EmailDomain,
        #[trigger] email[i],
    ) by {
        assert(email[i] == domain[i - at - 1]);
        assert(address_domain_char(domain[i - at - 1]));
    }
    assert(email[at] == '@');
    law_bare_address_is_hashed(email, at);
}

/// Anonymizing a frame keeps its columns, their names and order, and the
/// number of rows of each.
pub proof fn law_anonymization_keeps_shape(old: Frame, new: Frame)
    requires
        frame_anonymized(old, new),
    ensures
        new.columns@.len() == old.columns@.len(),
        forall|i: int|
            0 <= i < old.columns@.len() ==> {
                &&& (#[trigger] new.columns@[i]).name == old.columns@[i].name
                &&& rows(new.columns@[i].data) == rows(old.columns@[i].data)
            },
{
    assert forall|i: int| 0 <= i < old.columns@.len() implies {
        &&& (#[trigger] new.columns@[i]).name == old.columns@[i].name
        &&& rows(new.columns@[i].data) == rows(old.columns@[i].data)
    } by {
        assert(column_anonymized(old.columns@, i, new.columns@[i]));
    }
}

/// In an anonymized frame, the first column named `from`, `to`, `cc` or
/// `raw_body` has each string replaced by its anonymized text (a null stays
/// null; in a list, a null element becomes the empty text), and a column of
/// any other name but `trailers` is kept as it is.
pub proof fn law_identity_columns_are_anonymized(old: Frame, new: Frame, i: int)
    requires
        frame_anonymized(old, new),
        0 <= i < old.columns@.len(),
        forall|j: int| 0 <= j < i ==> (#[trigger] old.columns@[j]).name@ != old.columns@[i].name@,
    ensures
        ({
            let nm = old.columns@[i].name@;
            let target = nm == "from"@ || nm == "to"@ || nm == "cc"@ || nm == "raw_body"@;
            &&& new.columns@[i].name == old.columns@[i].name
            &&& target ==> (old.columns@[i].data matches ColumnData::Str(a) ==> (new.columns@[i].data matches ColumnData::Str(b) && b@.len() == a@.len() && forall|r: int|
                0 <= r < a@.len() ==> cell_view(#[trigger] b@[r]) == match a@[r] {
                    Some(x) => Some(anonymized(x@)),
                    None => None,
                }))
            &&& target ==> (old.columns@[i].data matches ColumnData::StrList(a) ==> (new.columns@[i].data matches ColumnData::StrList(b) && b@.len() == a@.len() && forall|r: int|
                0 <= r < a@.len() ==> match (a@[r], #[trigger] b@[r]) {
                    (None, None) => true,
                    (Some(v), Some(w)) => w@.len() == v@.len() && forall|j: int|
                        0 <= j < v@.len() ==> cell_view(#[trigger] w@[j]) == Some(match v@[j] {
                            Some(x) => anonymized(x@),
                            None => Seq::<char>::empty(),
                        }),
                    _ => false,
                }))
            &&& !target && nm != "trailers"@ ==> new.columns@[i] == old.columns@[i]
        }),
{
    let cols = old.columns@;
    let nm = cols[i].name@;
    crate::frame::lemma_first_column_is(cols, nm, 0, i);
    assert(column_anonymized(cols, i, new.columns@[i]));
    reveal_strlit("from");
    reveal_strlit("to");
    reveal_strlit("cc");
    reveal_strlit("raw_body");
    reveal_strlit("trailers");
    assert(is_str_target(nm) == (nm == "from"@ || nm == "to"@ || nm == "cc"@ || nm == "raw_body"@));
    match cols[i].data {
        ColumnData::StrList(a) => {
            if is_str_target(nm) {
                if let ColumnData::StrList(b) = new.columns@[i].data {
                    assert forall|r: int| 0 <= r < a@.len() implies match (a@[r], #[trigger] b@[r]) {
                        (None, None) => true,
                        (Some(v), Some(w)) => w@.len() == v@.len() && forall|j: int|
                            0 <= j < v@.len() ==> cell_view(#[trigger] w@[j]) == Some(match v@[j] {
                                Some(x) => anonymized(x@),
                                None => Seq::<char>::empty(),
                            }),
                        _ => false,
                    } by {
                        assert(crate::frame::list_row_anonymized(a@[r], b@[r]));
                    }
                }
            }
        },
        ColumnData::Str(a) => {
            if is_str_target(nm) {
                if let ColumnData::Str(b) = new.columns@[i].data {
                    assert forall|r: int| 0 <= r < a@.len() implies cell_view(#[trigger] b@[r]) == match a@[r] {
                        Some(x) => Some(anonymized(x@)),
                        None => None,
                    } by {
                        assert(cell_view(b@[r]) == crate::frame::anonymized_cell(a@[r]));
                    }
                }
            }
        },
        _ => {},
    }
}

/// In an anonymized frame, the first `trailers` column keeps its lists and
/// its fields: the first field named `identification` has each string
/// replaced by its anonymized text (a null stays null), and every field of
/// another name keeps its values.
pub proof fn law_trailer_identities_are_anonymized(old: Frame, new: Frame, i: int, f: int)
    requires
        frame_anonymized(old, new),
        0 <= i < old.columns@.len(),
        old.columns@[i].name@ == "trailers"@,
        forall|j: int| 0 <= j < i ==> (#[trigger] old.columns@[j]).name@ != "trailers"@,
        old.columns@[i].data is StructList,
        0 <= f < old.columns@[i].data->StructList_0.fields@.len(),
    ensures
        ({
            let a = old.columns@[i].data->StructList_0;
            let fa = a.fields@[f];
            &&& new.columns@[i].data matches ColumnData::StructList(b)
            &&& b.offsets@ == a.offsets@
            &&& b.fields@.len() == a.fields@.len()
            &&& b.fields@[f].name == fa.name
            &&& (fa.name@ == "identification"@ && (forall|g: int|
                0 <= g < f ==> (#[trigger] a.fields@[g]).name@ != "identification"@)) ==> (fa.values matches FieldValues::Str(x) ==> (b.fields@[f].values matches FieldValues::Str(y) && y@.len() == x@.len() && forall|r: int|
                0 <= r < x@.len() ==> cell_view(#[trigger] y@[r]) == match x@[r] {
                    Some(t) => Some(anonymized(t@)),
                    None => None,
                }))
            &&& fa.name@ != "identification"@ ==> crate::frame::same_values(b.fields@[f].values, fa.values)
        }),
{
    let cols = old.columns@;
    crate::frame::lemma_first_column_is(cols, "trailers"@, 0, i);
    assert(column_anonymized(cols, i, new.columns@[i]));
    reveal_strlit("trailers");
    reveal_strlit("from");
    reveal_strlit("to");
    reveal_strlit("cc");
    reveal_strlit("raw_body");
    assert(!is_str_target("trailers"@)) by {
        assert("trailers"@.len() == 8);
        assert("from"@.len() == 4);
        assert("to"@.len() == 2);
        assert("cc"@.len() == 2);
        assert("raw_body"@.len() == 8);
        assert("trailers"@[0] != "raw_body"@[0]);
    }
    let a = cols[i].data->StructList_0;
    let fa = a.fields@[f];
    if fa.name@ == "identification"@ && (forall|g: int|
        0 <= g < f ==> (#[trigger] a.fields@[g]).name@ != "identification"@) {
        lemma_first_field_is(a.fields@, "identification"@, 0, f);
        if let ColumnData::StructList(b) = new.columns@[i].data {
            if let FieldValues::Str(x) = fa.values {
                if let FieldValues::Str(y) = b.fields@[f].values {
                    assert forall|r: int| 0 <= r < x@.len() implies cell_view(#[trigger] y@[r]) == match x@[r] {
                        Some(t) => Some(anonymized(t@)),
                        None => None,
                    } by {
                        assert(cell_view(y@[r]) == crate::frame::anonymized_cell(x@[r]));
                    }
                }
            }
        }
    }
}

proof fn lemma_first_field_is(fields: Seq<crate::frame::StructField>, name: Seq<char>, i: int, k: int)
    requires
        0 <= i <= k < fields.len(),
        fields[k].name@ == name,
        forall|j: int| i <= j < k ==> #[trigger] fields[j].name@ != name,
    ensures
        crate::frame::first_field_from(fields, name, i) == k,
    decreases k - i,
{
    if i < k {
        lemma_first_field_is(fields, name, i + 1, k);
    }
}

/// The identity map pairs each `from` value as it was read with the value that the
/// anonymized dataset holds in that row.
pub proof fn law_id_map_agrees_with_dataset(df: Frame, ids: Frame, data: Frame)
    requires
        id_map_of(df.columns@, ids),
        frame_anonymized(df, data),
    ensures
        ({
            let k = first_column(df.columns@, "from"@);
            &&& df.columns@[k].data matches ColumnData::Str(a)
            &&& ids.columns@[0].data matches ColumnData::Str(o)
            &&& ids.columns@[1].data matches ColumnData::Str(h)
            &&& data.columns@[k].data matches ColumnData::Str(d)
            &&& o@ == a@
            &&& h@.len() == a@.len()
            &&& d@.len() == a@.len()
            &&& forall|r: int| 0 <= r < a@.len() ==> cell_view(#[trigger] h@[r]) == cell_view(d@[r])
        }),
{
    let cols = df.columns@;
    let k = first_column(cols, "from"@);
    lemma_first_column(cols, "from"@, 0);
    assert(column_anonymized(cols, k, data.columns@[k]));
    assert(is_str_target(cols[k].name@));
}

/// The number of times `c` occurs in `s`.
pub open spec fn count_char(s: Seq<char>, c: char) -> nat
    decreases s.len(),
{
    if s.len() == 0 {
        0
    } else {
        (if s.last() == c {
            1nat
        } else {
            0nat
        }) + count_char(s.drop_last(), c)
    }
}

pub open spec fn lacks(s: Seq<char>, c: char) -> bool {
    forall|i: int| 0 <= i < s.len() ==> s[i] != c
}

proof fn lemma_count_concat(a: Seq<char>, b: Seq<char>, c: char)
    ensures
        count_char(a + b, c) == count_char(a, c) + count_char(b, c),
    decreases b.len(),
{
    if b.len() > 0 {
        lemma_count_concat(a, b.drop_last(), c);
        assert((a + b).drop_last() == a + b.drop_last());
    } else {
        assert(a + b == a);
    }
}

proof fn lemma_count_lacking(s: Seq<char>, c: char)
    requires
        lacks(s, c),
    ensures
        count_char(s, c) == 0,
    decreases s.len(),
{
    if s.len() > 0 {
        lemma_count_lacking(s.drop_last(), c);
    }
}

proof fn lemma_trim_lacks(s: Seq<char>, c: char)
    requires
        lacks(s, c),
    ensures
        lacks(trim(s), c),
{
    let a = run_end(s, 0, CharClass::Whitespace);
    lemma_run_end(s, 0, CharClass::Whitespace);
    crate::text::lemma_run_start(s, a, s.len() as int, CharClass::Whitespace);
}

proof fn lemma_last_sep(t: Seq<char>, hi: int)
    requires
        0 <= hi <= t.len(),
    ensures
        -1 <= last_sep(t, hi) < hi,
    decreases hi,
{
    if hi > 0 && !is_sep(t[hi - 1]) {
        lemma_last_sep(t, hi - 1);
    }
}

proof fn lemma_name_and_prefix_lack(t: Seq<char>, c: char)
    requires
        lacks(t, c),
    ensures
        lacks(name_and_prefix(t).0, c),
        lacks(name_and_prefix(t).1, c),
{
    if t.len() > 0 {
        let idx = last_sep(t, t.len() as int);
        lemma_last_sep(t, t.len() as int);
        if idx >= 0 {
            let w = run_end(t, idx + 1, CharClass::Blank);
            lemma_run_end(t, idx + 1, CharClass::Blank);
            lemma_trim_lacks(t.subrange(w, t.len() as int), c);
        } else {
            lemma_trim_lacks(t, c);
        }
    }
}

proof fn lemma_hash_lacks_break(s: Seq<char>)
    ensures
        lacks(sha1_hex(s), '\n'),
{
    lemma_sha1_hex(s);
    assert forall|i: int| 0 <= i < sha1_hex(s).len() implies sha1_hex(s)[i] != '\n' by {
        assert(is_hex_lower_char(sha1_hex(s)[i]));
    }
}

proof fn lemma_replacements_lack_break(before: Seq<char>, email: Seq<char>)
    requires
        lacks(before, '\n'),
        lacks(email, '\n'),
    ensures
        lacks(bracketed_replacement(before, email), '\n'),
        lacks(bare_replacement(before, email), '\n'),
{
    lemma_name_and_prefix_lack(before, '\n');
    let np = name_and_prefix(before);
    lemma_hash_lacks_break(np.0);
    lemma_hash_lacks_break(email);
}

proof fn lemma_bracket_pass_lacks_break(s: Seq<char>, p: int)
    requires
        0 <= p,
        lacks(s, '\n'),
    ensures
        lacks(bracket_pass(s, p), '\n'),
    decreases s.len() - p,
{
    if p < s.len() {
        let l = first_from(s, p, '<');
        lemma_run_end(s, p, CharClass::Except('<'));
        if l < s.len() {
            let g = first_from(s, l + 1, '>');
            lemma_run_end(s, l + 1, CharClass::Except('>'));
            if g < s.len() && bracket_ok(s, l, g) {
                let w = run_start(s, p, l, CharClass::Whitespace);
                crate::text::lemma_run_start(s, p, l, CharClass::Whitespace);
                lemma_replacements_lack_break(s.subrange(p, w), s.subrange(l + 1, g));
                lemma_bracket_pass_lacks_break(s, g + 1);
            } else {
                lemma_bracket_pass_lacks_break(s, l + 1);
            }
        }
    }
}

proof fn lemma_email_pass_lacks_break(s: Seq<char>, p: int, last: int)
    requires
        0 <= last <= p <= s.len(),
        lacks(s, '\n'),
    ensures
        lacks(email_pass(s, p, last), '\n'),
    decreases s.len() - p,
{
    crate::identity::lemma_next_email(s, p);
    match next_email(s, p) {
        None => {},
        Some((b, e)) => {
            if (b > 0 && s[b - 1] == '<') || (e < s.len() && s[e] == '>') {
                lemma_email_pass_lacks_break(s, e, last);
            } else {
                lemma_replacements_lack_break(s.subrange(last, b), s.subrange(b, e));
                lemma_email_pass_lacks_break(s, e, e);
            }
        },
    }
}

proof fn lemma_lines_keep_breaks(s: Seq<char>, pos: int)
    requires
        0 <= pos <= s.len(),
    ensures
        count_char(anonymized_lines(s, pos), '\n') == count_char(
            s.subrange(pos, s.len() as int),
            '\n',
        ),
    decreases s.len() - pos,
{
    let i = first_from(s, pos, '\n');
    lemma_run_end(s, pos, CharClass::Except('\n'));
    let line = s.subrange(pos, if i >= s.len() { s.len() as int } else { i });
    assert(lacks(line, '\n')) by {
        assert forall|j: int| 0 <= j < line.len() implies line[j] != '\n' by {
            assert(class_has(CharClass::Except('\n'), s[pos + j]));
        }
    }
    lemma_bracket_pass_lacks_break(line, 0);
    lemma_email_pass_lacks_break(bracket_pass(line, 0), 0, 0);
    lemma_count_lacking(anonymized_line(line), '\n');
    lemma_count_lacking(line, '\n');
    if i < s.len() {
        lemma_lines_keep_breaks(s, i + 1);
        let rest = anonymized_lines(s, i + 1);
        lemma_count_concat(anonymized_line(line) + seq!['\n'], rest, '\n');
        lemma_count_concat(anonymized_line(line), seq!['\n'], '\n');
        lemma_count_concat(line + seq!['\n'], s.subrange(i + 1, s.len() as int), '\n');
        lemma_count_concat(line, seq!['\n'], '\n');
        assert(seq!['\n'].drop_last() == Seq::<char>::empty());
        assert(line + seq!['\n'] + s.subrange(i + 1, s.len() as int) == s.subrange(pos, s.len() as int));
    }
}

/// Anonymization works line by line and keeps the lines: the text has as
/// many line breaks after as before.
pub proof fn law_line_breaks_are_kept(s: Seq<char>)
    ensures
        count_char(anonymized(s), '\n') == count_char(s, '\n'),
{
    if s.len() > 0 {
        lemma_lines_keep_breaks(s, 0);
        assert(s.subrange(0, s.len() as int) == s);
    }
}

} // verus!
