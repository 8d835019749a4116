use anonymizer::email_parser::read_raw_offset;
use anonymizer::extractors::extract_patches;
use regex::Regex;

/// Patch extraction written with the `regex` crate, as an independent oracle.
fn oracle_patches(body: &str) -> Vec<String> {
    let diff = Regex::new(r"(?im)^diff --git ").unwrap();
    let sep = Regex::new(r"(?m)^---\s*$").unwrap();
    if !diff.is_match(body) {
        return Vec::new();
    }
    let seps: Vec<usize> = sep.find_iter(body).map(|m| m.start()).collect();
    let head = match seps.first() {
        Some(&f) => &body[..f],
        None => body,
    };
    let mut starts = seps.clone();
    if seps.is_empty() || diff.is_match(head) {
        starts.insert(0, 0);
    }
    starts.dedup();
    let mut out = Vec::new();
    for (i, &a) in starts.iter().enumerate() {
        let b = starts.get(i + 1).copied().unwrap_or(body.len());
        let section = &body[a..b];
        if diff.is_match(section) && !section.trim().is_empty() {
            out.push(section.trim().to_string());
        }
    }
    out
}

#[test]
fn no_diff_no_patch() {
    assert!(extract_patches("just a message\n---\nsig").is_empty());
    assert!(extract_patches("").is_empty());
}

#[test]
fn single_patch_after_separator() {
    let body = "Fix the bug.\n\nSigned-off-by: A <a@b.c>\n---\n foo.c | 2 +-\n\ndiff --git a/foo.c b/foo.c\n--- a/foo.c\n+++ b/foo.c\n";
    let patches = extract_patches(body);
    assert_eq!(patches.len(), 1);
    assert!(patches[0].starts_with("---\n foo.c"));
    assert!(patches[0].ends_with("+++ b/foo.c"));
    assert_eq!(patches, oracle_patches(body));
}

#[test]
fn diff_without_separator_is_one_patch() {
    let body = "diff --git a/x b/x\nindex 1..2\n";
    assert_eq!(extract_patches(body), vec!["diff --git a/x b/x\nindex 1..2".to_string()]);
}

#[test]
fn diff_header_in_any_case() {
    let body = "DIFF --GIT a/x b/x\n+1\n";
    assert_eq!(extract_patches(body), vec!["DIFF --GIT a/x b/x\n+1".to_string()]);
}

#[test]
fn two_sections_two_patches() {
    let body = "intro\n---\ndiff --git a/1 b/1\n+a\n---\ndiff --git a/2 b/2\n+b\n";
    let patches = extract_patches(body);
    assert_eq!(patches.len(), 2);
    assert_eq!(patches, oracle_patches(body));
}

#[test]
fn patches_agree_with_regex_on_generated_bodies() {
    let lines = [
        "diff --git a/x b/x", "DiFf --gIt ", "diff --git", "---", "--- ", "---\t \u{a0}", "-- -",
        " ---", "---x", "text", "", "+added", "--- a/file", "\r", "----",
    ];
    let mut state: u64 = 0x9e37_79b9_7f4a_7c15;
    for _ in 0..3000 {
        state ^= state << 13;
        state ^= state >> 7;
        state ^= state << 17;
        let n = (state % 9) as usize;
        let mut body = String::new();
        for k in 0..n {
            state ^= state << 13;
            state ^= state >> 7;
            state ^= state << 17;
            if k > 0 {
                body.push('\n');
            }
            body.push_str(lines[(state % lines.len() as u64) as usize]);
        }
        if state % 3 == 0 {
            body.push('\n');
        }
        assert_eq!(extract_patches(&body), oracle_patches(&body), "body {:?}", body);
    }
}

#[test]
fn raw_offsets_are_clamped() {
    let raw = b"Date: Mon, 1 Jan 2024\r\nFrom: x";
    assert_eq!(read_raw_offset(raw, 0, 4), "Date");
    assert_eq!(read_raw_offset(raw, 6, 200), "Mon, 1 Jan 2024\r\nFrom: x");
    assert_eq!(read_raw_offset(raw, 4, 4), "");
    assert_eq!(read_raw_offset(raw, 9, 3), "");
    assert_eq!(read_raw_offset(raw, 100, 200), "");
}

#[test]
fn raw_offsets_decode_lossily() {
    let raw = [b'a', 0xff, b'b'];
    assert_eq!(read_raw_offset(&raw, 0, 3), "a\u{fffd}b");
    let utf8 = "héllo".as_bytes();
    assert_eq!(read_raw_offset(utf8, 0, utf8.len() as u32), "héllo");
}

#[test]
fn files_of_one_section_stay_one_patch() {
    let body = "msg\n---\ndiff --git a/1 b/1\n+a\ndiff --git a/2 b/2\n+b\n";
    let patches = extract_patches(body);
    assert_eq!(patches, vec!["---\ndiff --git a/1 b/1\n+a\ndiff --git a/2 b/2\n+b".to_string()]);
}

#[test]
fn adjacent_raw_reads_concatenate() {
    let raw = b"Subject: hi\r\nFrom: a@b.c\r\n";
    let n = raw.len() as u32;
    for (a, b, c) in [(0, 9, 13), (0, 0, 5), (3, 3, 3), (5, 20, 200), (30, 40, 50), (0, n, n + 7)] {
        let joined = read_raw_offset(raw, a, b) + &read_raw_offset(raw, b, c);
        assert_eq!(joined, read_raw_offset(raw, a, c), "{} {} {}", a, b, c);
    }
}
