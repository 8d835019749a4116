//! Reading header text out of a raw message.

use vstd::prelude::*;
use vstd::slice::slice_subrange;
use vstd::utf8::{
    decode_utf8, decode_utf8_split, is_char_boundary, is_char_boundary_iff_not_is_continuation_byte,
    is_char_boundary_start_end_of_seq, partial_valid_utf8_extend_ascii_block, valid_utf8,
};

verus! {

/// The text of `bytes` as `String::from_utf8_lossy` decodes it.
pub uninterp spec fn utf8_lossy(bytes: Seq<u8>) -> Seq<char>;

/// `String::from_utf8_lossy` of std, made owned: the text of `bytes` with
/// every invalid sequence replaced by U+FFFD. For valid UTF-8 that is its
/// decoding; which text it is otherwise is left to the name `utf8_lossy`.
#[verifier::external_body]
fn from_utf8_lossy(bytes: &[u8]) -> (res: String)
    ensures
        res@ == utf8_lossy(bytes@),
        valid_utf8(bytes@) ==> res@ == decode_utf8(bytes@),
{
    String::from_utf8_lossy(bytes).into_owned()
}

pub open spec fn clamp(offset: u32, len: nat) -> int {
    if offset as int <= len {
        offset as int
    } else {
        len as int
    }
}

/// The text of the bytes `start..end` of `raw`, clamped to its length:
/// empty when the range is empty, the decoding of valid UTF-8, and otherwise
/// the lossy decoding.
pub open spec fn raw_text(raw: Seq<u8>, start: u32, end: u32) -> Seq<char> {
    if start >= end {
        Seq::<char>::empty()
    } else {
        let sub = raw.subrange(clamp(start, raw.len()), clamp(end, raw.len()));
        if valid_utf8(sub) {
            decode_utf8(sub)
        } else {
            utf8_lossy(sub)
        }
    }
}

/// The bytes `start_offset..end_offset` of a raw message, clamped to its
/// length, decoded lossily; empty when the range is empty.
pub fn read_raw_offset(raw_content: &[u8], start_offset: u32, end_offset: u32) -> (r: String)
    ensures
        r@ == raw_text(raw_content@, start_offset, end_offset),
        start_offset < end_offset ==> r@ == utf8_lossy(
            raw_content@.subrange(
                clamp(start_offset, raw_content@.len()),
                clamp(end_offset, raw_content@.len()),
            ),
        ),
{
    if start_offset >= end_offset {
        return String::new();
    }
    let len = raw_content.len();
    let start = if (start_offset as usize) < len { start_offset as usize } else { len };
    let end = if (end_offset as usize) < len { end_offset as usize } else { len };
    let sub_slice = slice_subrange(raw_content, start, end);
    from_utf8_lossy(sub_slice)
}

/// Bytes below 0x80 are valid UTF-8, with a character boundary at each index.
proof fn lemma_ascii_utf8(bytes: Seq<u8>)
    requires
        forall|i: int| 0 <= i < bytes.len() ==> bytes[i] < 0x80,
    ensures
        valid_utf8(bytes),
        forall|k: int| 0 <= k <= bytes.len() ==> is_char_boundary(bytes, k),
{
    assert(bytes.subrange(0, 0) =~= Seq::<u8>::empty());
    assert(valid_utf8(Seq::<u8>::empty()));
    partial_valid_utf8_extend_ascii_block(bytes, 0, bytes.len() as int);
    assert(bytes.subrange(0, bytes.len() as int) =~= bytes);
    is_char_boundary_start_end_of_seq(bytes);
    assert forall|k: int| 0 <= k <= bytes.len() implies is_char_boundary(bytes, k) by {
        if k < bytes.len() {
            is_char_boundary_iff_not_is_continuation_byte(bytes, k);
        }
    }
}

/// Reading a raw ASCII message in two adjacent pieces gives the text of
/// reading it at once: for offsets `a <= b <= c`, the text of `a..b` followed
/// by that of `b..c` is the text of `a..c`.
pub proof fn law_adjacent_reads_concatenate(raw: Seq<u8>, a: u32, b: u32, c: u32)
    requires
        forall|i: int| 0 <= i < raw.len() ==> raw[i] < 0x80,
        a <= b <= c,
    ensures
        raw_text(raw, a, b) + raw_text(raw, b, c) == raw_text(raw, a, c),
{
    if a == b {
        assert(Seq::<char>::empty() + raw_text(raw, b, c) =~= raw_text(raw, b, c));
    } else if b == c {
        assert(raw_text(raw, a, b) + Seq::<char>::empty() =~= raw_text(raw, a, b));
    } else {
        let n = raw.len();
        let x = clamp(a, n);
        let y = clamp(b, n);
        let z = clamp(c, n);
        let whole = raw.subrange(x, z);
        lemma_ascii_utf8(whole);
        lemma_ascii_utf8(raw.subrange(x, y));
        lemma_ascii_utf8(raw.subrange(y, z));
        decode_utf8_split(whole, y - x);
        assert(whole.subrange(0, y - x) =~= raw.subrange(x, y));
        assert(whole.subrange(y - x, whole.len() as int) =~= raw.subrange(y, z));
    }
}

/// ASCII bytes decode to the characters with the same codes, one per byte.
proof fn lemma_decode_ascii(bytes: Seq<u8>)
    requires
        forall|i: int| 0 <= i < bytes.len() ==> bytes[i] < 0x80,
    ensures
        decode_utf8(bytes).len() == bytes.len(),
        forall|i: int| 0 <= i < bytes.len() ==> decode_utf8(bytes)[i] as u32 == bytes[i] as u32,
    decreases bytes.len(),
{
    lemma_ascii_utf8(bytes);
    if bytes.len() > 0 {
        let b = bytes[0];
        let rest = bytes.subrange(1, bytes.len() as int);
        lemma_decode_ascii(rest);
        assert(b & 0x7f == b) by (bit_vector)
            requires
                b < 0x80,
        ;
        let c = decode_utf8(bytes);
        assert(c == seq![b as u32 as char] + decode_utf8(rest));
        assert((b as u32 as char) as u32 == b as u32);
        assert forall|i: int| 0 <= i < bytes.len() implies c[i] as u32 == bytes[i] as u32 by {
            if i > 0 {
                assert(c[i] == decode_utf8(rest)[i - 1]);
                assert(rest[i - 1] == bytes[i]);
            }
        }
    }
}

/// Reading an ASCII message gives its bytes as characters: the range is cut
/// to the message's length, and an empty range gives no text.
pub proof fn law_ascii_read_gives_the_bytes(raw: Seq<u8>, a: u32, b: u32)
    requires
        forall|i: int| 0 <= i < raw.len() ==> raw[i] < 0x80,
    ensures
        ({
            let lo = if a <= raw.len() { a as int } else { raw.len() as int };
            let hi = if b <= raw.len() { b as int } else { raw.len() as int };
            &&& raw_text(raw, a, b).len() == if a < b { hi - lo } else { 0 }
            &&& a < b ==> forall|i: int|
                0 <= i < hi - lo ==> raw_text(raw, a, b)[i] as u32 == raw[lo + i] as u32
        }),
{
    if a < b {
        let lo = clamp(a, raw.len());
        let hi = clamp(b, raw.len());
        let sub = raw.subrange(lo, hi);
        lemma_ascii_utf8(sub);
        lemma_decode_ascii(sub);
        assert(raw_text(raw, a, b) == decode_utf8(sub));
        assert forall|i: int| 0 <= i < hi - lo implies raw_text(raw, a, b)[i] as u32 == raw[lo
            + i] as u32 by {
            assert(sub[i] == raw[lo + i]);
        }
    }
}

} // verus!
