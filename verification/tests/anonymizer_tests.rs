use std::borrow::Cow;

use anonymizer::anonymizer::{anonymize_string, extract_name_and_prefix, maybe_anonymize};
use anonymizer::hashing::generate_sha1_hash;
use anonymizer::text::is_whitespace;
use regex::{Captures, Regex};
use sha1::{Digest, Sha1};

/// SHA-1 in hex, straight from the `sha1` crate.
fn sha1_hex(s: &str) -> String {
    Sha1::digest(s.as_bytes()).iter().map(|b| format!("{:02x}", b)).collect()
}

/// Splits text before an identity into (name, prefix), with `str` methods.
fn split_name(text: &str) -> (String, String) {
    match text.rfind(|c| c == ':' || c == ',' || c == ';') {
        Some(i) => {
            let rest = &text[i + 1..];
            let blanks = rest.len() - rest.trim_start_matches(|c| c == ' ' || c == '\t').len();
            let cut = i + 1 + blanks;
            (text[cut..].trim().to_string(), text[..cut].to_string())
        }
        None => (text.trim().to_string(), String::new()),
    }
}

/// Anonymization written with the `regex` crate, as an independent oracle.
fn oracle(input: &str) -> String {
    let bracket = Regex::new(r"([^<]*?)\s*<([^>]+@[^>]+)>").unwrap();
    let address = Regex::new(r"[a-zA-Z0-9._%+-]+@[a-zA-Z0-9.-]+(?:\.[a-zA-Z]{2,})?").unwrap();
    if input.is_empty() {
        return String::new();
    }
    let mut lines = Vec::new();
    for line in input.split('\n') {
        let first = bracket.replace_all(line, |c: &Captures| {
            let before = &c[1];
            let email = &c[2];
            let (name, prefix) = split_name(before);
            if name.is_empty() {
                format!("{}<{}>", before, sha1_hex(email))
            } else {
                format!("{}{} <{}>", prefix, sha1_hex(&name), sha1_hex(email))
            }
        });
        let text: &str = &first;
        let bytes = text.as_bytes();
        let mut out = String::new();
        let mut last = 0;
        for m in address.find_iter(text) {
            if (m.start() > 0 && bytes[m.start() - 1] == b'<') || (m.end() < bytes.len() && bytes[m.end()] == b'>') {
                continue;
            }
            let before = &text[last..m.start()];
            let (name, prefix) = split_name(before);
            if name.is_empty() {
                out.push_str(before);
                out.push_str(&sha1_hex(m.as_str()));
            } else {
                out.push_str(&format!("{}{} <{}>", prefix, sha1_hex(&name), sha1_hex(m.as_str())));
            }
            last = m.end();
        }
        out.push_str(&text[last..]);
        lines.push(out);
    }
    lines.join("\n")
}

#[test]
fn test_sha1_known_value() {
    assert_eq!(generate_sha1_hash("test"), "a94a8fe5ccb19ba61c4c0873d391e987982fbbd3");
}

#[test]
fn test_empty_string() {
    assert_eq!(anonymize_string(""), "");
}

#[test]
fn test_no_identity() {
    assert_eq!(anonymize_string("hello world"), "hello world");
}

#[test]
fn bare_address_becomes_its_hash() {
    assert_eq!(anonymize_string("user@example.com"), "63a710569261a24b3766275b7000ce8d7b32e2f7");
}

#[test]
fn named_identity_becomes_two_hashes() {
    assert_eq!(
        anonymize_string("Name <user@example.com>"),
        "709a23220f2c3d64d1e1d6d18c4d5280f8d82fca <63a710569261a24b3766275b7000ce8d7b32e2f7>"
    );
}

#[test]
fn hash_is_forty_lowercase_hex_digits() {
    for s in ["", "a", "Ünïcödé ✓", "user@example.com"] {
        let h = generate_sha1_hash(s);
        assert_eq!(h.len(), 40);
        assert!(h.chars().all(|c| c.is_ascii_digit() || ('a'..='f').contains(&c)));
        assert_eq!(h, sha1_hex(s));
    }
}

#[test]
fn same_identity_same_hash() {
    let a = anonymize_string("From: Jane Doe <jane@example.org>");
    let b = anonymize_string("From: Jane Doe <jane@example.org>");
    assert_eq!(a, b);
    assert_eq!(a, format!("From: {} <{}>", sha1_hex("Jane Doe"), sha1_hex("jane@example.org")));
}

#[test]
fn header_prefix_is_kept() {
    assert_eq!(
        anonymize_string("To: a@b.com"),
        format!("To: {}", sha1_hex("a@b.com"))
    );
    assert_eq!(
        anonymize_string("Cc: Bob Smith bob@x.org"),
        format!("Cc: {} <{}>", sha1_hex("Bob Smith"), sha1_hex("bob@x.org"))
    );
}

#[test]
fn bracket_without_name_keeps_text_before() {
    assert_eq!(anonymize_string("To:  <a@b.c>"), format!("To:<{}>", sha1_hex("a@b.c")));
    assert_eq!(anonymize_string("<a@b.c>"), format!("<{}>", sha1_hex("a@b.c")));
}

#[test]
fn bare_addresses_are_hashed_in_multiline_text() {
    assert_eq!(anonymize_string("user@example.com\nhi"), "63a710569261a24b3766275b7000ce8d7b32e2f7\nhi");
    let text = "Signed-off-by: A <a@x.org>\n   b@y.org\nhello";
    let want = format!("Signed-off-by: {} <{}>\n   {}\nhello", sha1_hex("A"), sha1_hex("a@x.org"), sha1_hex("b@y.org"));
    assert_eq!(anonymize_string(text), want);
    assert_eq!(anonymize_string("b@y.org"), sha1_hex("b@y.org"));
}

#[test]
fn name_is_hashed_without_surrounding_whitespace() {
    assert_eq!(
        anonymize_string("  Jane Doe \t <jane@example.org>"),
        format!("{} <{}>", sha1_hex("Jane Doe"), sha1_hex("jane@example.org"))
    );
    let a = anonymize_string("Jane <jane@example.org>");
    let b = anonymize_string("J. Doe> <jane@example.org>");
    assert_eq!(a.split(' ').last(), b.split(' ').last());
}

#[test]
fn text_without_at_is_unchanged() {
    let text = "no identity <here> at all;\n\tjust text: x, y";
    assert_eq!(anonymize_string(text), text);
}

#[test]
fn maybe_anonymize_borrows_unchanged_text() {
    assert!(matches!(maybe_anonymize("plain text"), Cow::Borrowed("plain text")));
    match maybe_anonymize("x@y.org") {
        Cow::Owned(s) => assert_eq!(s, sha1_hex("x@y.org")),
        Cow::Borrowed(_) => panic!("an address must be replaced"),
    }
}

#[test]
fn name_and_prefix_split() {
    assert_eq!(extract_name_and_prefix(""), (String::new(), String::new()));
    assert_eq!(extract_name_and_prefix("From: John Doe "), ("John Doe".to_string(), "From: ".to_string()));
    assert_eq!(extract_name_and_prefix("  John  "), ("John".to_string(), String::new()));
    assert_eq!(extract_name_and_prefix("a, b;\t c"), ("c".to_string(), "a, b;\t ".to_string()));
    assert_eq!(extract_name_and_prefix("x:"), (String::new(), "x:".to_string()));
}

#[test]
fn whitespace_class_is_unicode_white_space() {
    for n in 0u32..=0x10ffff {
        if let Some(c) = char::from_u32(n) {
            assert_eq!(is_whitespace(c), c.is_whitespace(), "U+{:04X}", n);
        }
    }
}

#[test]
fn agrees_with_regex_on_chosen_texts() {
    let texts = [
        "Reported-by: Some One <some.one@example.com>",
        "a@b", "a@b.", "@b.com", "a@", "x <y@z> w <p@q.r>", "<<a@b>>", "<a@b", "a@b>",
        "name<a@b.co>", "n  \t<a@bc>", "tab\t<a@b@c>", "<@b>", "<a@>", "<a@b>", "<ab@>",
        "Foo, Bar <x@y.z>; Baz <u@v.w>", "me: a.b@c.d e_f@g.h", "x@y.z:w@v.u",
        "first line a@b.c\nsecond B <d@e.f>\n\n", "\n", "trailing \u{a0}<m@n.o>",
        "ünïcode Nåme <ü@x.de>", "a%b+c@d-e.f", "-@-", "..@..", "a@b_c@d", "<x a@b.c y>",
        "To: <a@b.c>, <d@e.f>", "x;<a@b>", "x; <a@b>", "x;\t<a@b>", "; a@b",
    ];
    for t in texts {
        assert_eq!(anonymize_string(t), oracle(t), "input {:?}", t);
    }
}

#[test]
fn agrees_with_regex_on_generated_texts() {
    let alphabet: Vec<char> = "ab.Z9_%+-@<>:,; \t\n\u{a0}é".chars().collect();
    let mut state: u64 = 0x2545_f491_4f6c_dd1d;
    for _ in 0..4000 {
        state ^= state << 13;
        state ^= state >> 7;
        state ^= state << 17;
        let len = (state % 24) as usize;
        let mut s = String::new();
        for _ in 0..len {
            state ^= state << 13;
            state ^= state >> 7;
            state ^= state << 17;
            s.push(alphabet[(state % alphabet.len() as u64) as usize]);
        }
        assert_eq!(anonymize_string(&s), oracle(&s), "input {:?}", s);
    }
}

#[test]
fn several_identities_on_one_line() {
    assert_eq!(
        anonymize_string("To: A <a@x.org>, B <b@y.org>"),
        format!("To: {} <{}>, {} <{}>", sha1_hex("A"), sha1_hex("a@x.org"), sha1_hex("B"), sha1_hex("b@y.org"))
    );
}

#[test]
fn line_count_is_kept() {
    let text = "a@b.c\nName <d@e.f>\n\nx y@z.w\n";
    assert_eq!(anonymize_string(text).matches('\n').count(), text.matches('\n').count());
}
