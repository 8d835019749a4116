//! SHA-1 digests of identities, written as lowercase hexadecimal.

use sha1::{Digest, Sha1};
use vstd::prelude::*;
use vstd::utf8::encode_utf8;

use crate::text::push_char;

verus! {

/// The SHA-1 digest of `data`, as the `sha1` crate computes it.
pub uninterp spec fn sha1_digest(data: Seq<u8>) -> Seq<u8>;

/// `Sha1::digest` of the `sha1` crate: the 20-byte SHA-1 digest of `data`
/// (its output size is `U20`). Which bytes those are is left to the name
/// `sha1_digest`.
#[verifier::external_body]
fn sha1_bytes(data: &[u8]) -> (res: Vec<u8>)
    ensures
        res@ == sha1_digest(data@),
        res@.len() == 20,
{
    Sha1::digest(data).to_vec()
}

/// The lowercase hexadecimal digit for `n < 16`.
pub open spec fn hex_digit(n: u8) -> char {
    if n < 10 {
        (n + 0x30) as char
    } else {
        (n + 0x57) as char
    }
}

/// Each byte as two lowercase hexadecimal digits, high nibble first.
pub open spec fn hex_lower(bytes: Seq<u8>) -> Seq<char>
    decreases bytes.len(),
{
    if bytes.len() == 0 {
        seq![]
    } else {
        seq![hex_digit(bytes[0] / 16), hex_digit(bytes[0] % 16)] + hex_lower(bytes.drop_first())
    }
}

/// The hash under which an identity is published: the lowercase hex SHA-1
/// digest of the identity's UTF-8 bytes.
pub open spec fn sha1_hex(s: Seq<char>) -> Seq<char> {
    hex_lower(sha1_digest(encode_utf8(s)))
}

pub open spec fn is_hex_lower_char(c: char) -> bool {
    ('0' as u32 <= c as u32 <= '9' as u32) || ('a' as u32 <= c as u32 <= 'f' as u32)
}

pub proof fn lemma_hex_lower(bytes: Seq<u8>)
    ensures
        hex_lower(bytes).len() == 2 * bytes.len(),
        forall|i: int| 0 <= i < hex_lower(bytes).len() ==> is_hex_lower_char(#[trigger] hex_lower(bytes)[i]),
    decreases bytes.len(),
{
    if bytes.len() > 0 {
        lemma_hex_lower(bytes.drop_first());
        let h = seq![hex_digit(bytes[0] / 16), hex_digit(bytes[0] % 16)];
        assert forall|i: int| 0 <= i < hex_lower(bytes).len() implies is_hex_lower_char(
            #[trigger] hex_lower(bytes)[i],
        ) by {
            if i >= 2 {
                assert(hex_lower(bytes)[i] == hex_lower(bytes.drop_first())[i - 2]);
            }
        }
    }
}

/// A published hash holds lowercase hexadecimal digits only.
pub proof fn lemma_sha1_hex(s: Seq<char>)
    ensures
        forall|i: int| 0 <= i < sha1_hex(s).len() ==> is_hex_lower_char(#[trigger] sha1_hex(s)[i]),
{
    lemma_hex_lower(sha1_digest(encode_utf8(s)));
}

fn hex_digit_exec(n: u8) -> (c: char)
    requires
        n < 16,
    ensures
        c == hex_digit(n),
{
    if n < 10 {
        (n + 0x30) as char
    } else {
        (n + 0x57) as char
    }
}

/// Lowercase hexadecimal encoding of `bytes`.
pub fn to_hex_lower(bytes: &[u8]) -> (res: String)
    ensures
        res@ == hex_lower(bytes@),
{
    let mut res = String::new();
    let mut i: usize = 0;
    assert(bytes@.skip(0) == bytes@);
    assert(res@ + hex_lower(bytes@) == hex_lower(bytes@));
    while i < bytes.len()
        invariant
            i <= bytes@.len(),
            hex_lower(bytes@) == res@ + hex_lower(bytes@.skip(i as int)),
        decreases bytes.len() - i,
    {
        let b = bytes[i];
        let ghost rest = bytes@.skip(i as int);
        assert(rest.drop_first() == bytes@.skip(i + 1));
        assert(rest[0] == b);
        let ghost before = res@;
        push_char(&mut res, hex_digit_exec(b / 16));
        push_char(&mut res, hex_digit_exec(b % 16));
        assert(hex_lower(rest) == seq![hex_digit(b / 16), hex_digit(b % 16)] + hex_lower(bytes@.skip(i + 1)));
        assert(res@ == before + seq![hex_digit(b / 16), hex_digit(b % 16)]);
        i = i + 1;
    }
    assert(bytes@.skip(i as int).len() == 0);
    assert(res@ + hex_lower(bytes@.skip(i as int)) == res@);
    res
}

/// Compute the SHA-1 hex digest of a string.
pub fn generate_sha1_hash(input: &str) -> (res: String)
    ensures
        res@ == sha1_hex(input@),
        res@.len() == 40,
        forall|i: int| 0 <= i < res@.len() ==> is_hex_lower_char(#[trigger] res@[i]),
{
    let digest = sha1_bytes(input.as_bytes());
    proof {
        lemma_hex_lower(digest@);
    }
    to_hex_lower(digest.as_slice())
}

/// `c` is the lowercase hexadecimal digit of the nibble `n`: `0`-`9` for
/// 0 to 9, `a`-`f` for 10 to 15.
pub open spec fn spells_nibble(c: char, n: u8) -> bool {
    &&& 0 <= n < 16
    &&& c as u32 == if n < 10 {
        48 + n
    } else {
        97 + (n - 10)
    }
}

proof fn lemma_hex_lower_at(bytes: Seq<u8>, i: int)
    requires
        0 <= i < bytes.len(),
    ensures
        hex_lower(bytes).len() == 2 * bytes.len(),
        hex_lower(bytes)[2 * i] == hex_digit(bytes[i] / 16),
        hex_lower(bytes)[2 * i + 1] == hex_digit(bytes[i] % 16),
    decreases i,
{
    lemma_hex_lower(bytes);
    lemma_hex_lower(bytes.drop_first());
    if i > 0 {
        lemma_hex_lower_at(bytes.drop_first(), i - 1);
        assert(hex_lower(bytes)[2 * i] == hex_lower(bytes.drop_first())[2 * (i - 1)]);
        assert(hex_lower(bytes)[2 * i + 1] == hex_lower(bytes.drop_first())[2 * (i - 1) + 1]);
    }
}

/// The published hash of a text spells the SHA-1 digest of the text's whole
/// UTF-8 encoding: two lowercase hexadecimal digits per digest byte, high
/// nibble first, and nothing else.
pub proof fn law_hash_spells_digest_of_whole_encoding(s: Seq<char>)
    ensures
        sha1_hex(s).len() == 2 * sha1_digest(encode_utf8(s)).len(),
        forall|i: int|
            0 <= i < sha1_digest(encode_utf8(s)).len() ==> {
                &&& spells_nibble(sha1_hex(s)[2 * i], #[trigger] sha1_digest(encode_utf8(s))[i] / 16)
                &&& spells_nibble(sha1_hex(s)[2 * i + 1], sha1_digest(encode_utf8(s))[i] % 16)
            },
{
    let d = sha1_digest(encode_utf8(s));
    lemma_hex_lower(d);
    assert forall|i: int| 0 <= i < d.len() implies {
        &&& spells_nibble(sha1_hex(s)[2 * i], #[trigger] d[i] / 16)
        &&& spells_nibble(sha1_hex(s)[2 * i + 1], d[i] % 16)
    } by {
        lemma_hex_lower_at(d, i);
        let hi = d[i] / 16;
        let lo = d[i] % 16;
        assert(hex_digit(hi) as u32 == if hi < 10 { 48 + hi } else { 97 + (hi - 10) });
        assert(hex_digit(lo) as u32 == if lo < 10 { 48 + lo } else { 97 + (lo - 10) });
    }
}

} // verus!
