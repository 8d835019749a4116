//! The compression of written datasets.

use vstd::prelude::*;

use crate::text::push_char;

verus! {

/// The decimal digit of `d < 10`.
pub open spec fn digit(d: nat) -> char {
    (d + 0x30) as char
}

/// `n` in decimal.
pub open spec fn decimal(n: nat) -> Seq<char>
    decreases n,
{
    if n < 10 {
        seq![digit(n)]
    } else {
        decimal(n / 10).push(digit(n % 10))
    }
}

/// `n` in decimal, appended to `s`.
fn push_decimal(s: &mut String, n: usize)
    ensures
        final(s)@ == old(s)@ + decimal(n as nat),
    decreases n,
{
    if n >= 10 {
        push_decimal(s, n / 10);
    }
    let d: u8 = (n % 10) as u8;
    push_char(s, (d + 0x30) as char);
}

/// The zstd level that a dataset is written with: none, which lets zstd
/// choose, for 0; the given level for the levels that zstd accepts, 1 to 22;
/// and for any other, the error that names the level and the range.
pub fn zstd_level_for(compression: usize) -> (r: Result<Option<i32>, String>)
    ensures
        compression == 0 ==> r matches Ok(None),
        1 <= compression <= 22 ==> (r matches Ok(Some(level)) && level == compression),
        compression > 22 ==> (r matches Err(m) && m@ == "invalid zstd level "@ + decimal(
            compression as nat,
        ) + ": valid compression range 1..=22 exceeded."@),
{
    if compression == 0 {
        return Ok(None);
    }
    if compression <= 22 {
        let level: i32 = compression as i32;
        return Ok(Some(level));
    }
    let mut msg = String::from_str("invalid zstd level ");
    push_decimal(&mut msg, compression);
    msg.append(": valid compression range 1..=22 exceeded.");
    Err(msg)
}

/// The number that a text of decimal digits spells.
pub open spec fn digits_value(t: Seq<char>) -> int
    decreases t.len(),
{
    if t.len() == 0 {
        0
    } else {
        digits_value(t.drop_last()) * 10 + (t.last() as u32 - 48)
    }
}

proof fn lemma_digit(d: nat)
    requires
        d < 10,
    ensures
        digit(d) as u32 == d + 48,
{
    let u: u32 = (d + 48) as u32;
    assert((u as char) as u32 == u);
}

/// A level in an error message is written in decimal: digits `0`-`9` only,
/// no leading zero, spelling the level itself.
pub proof fn law_decimal_spells_the_number(n: nat)
    ensures
        decimal(n).len() > 0,
        forall|i: int| 0 <= i < decimal(n).len() ==> '0' <= #[trigger] decimal(n)[i] <= '9',
        decimal(n).len() > 1 <==> n >= 10,
        decimal(n).len() > 1 ==> decimal(n)[0] != '0',
        digits_value(decimal(n)) == n,
    decreases n,
{
    if n < 10 {
        lemma_digit(n);
        let t = decimal(n);
        assert(t == seq![digit(n)]);
        assert(t.drop_last() =~= Seq::<char>::empty());
        assert(digits_value(t.drop_last()) == 0);
    } else {
        lemma_digit(n % 10);
        law_decimal_spells_the_number(n / 10);
        let t = decimal(n);
        assert(t == decimal(n / 10).push(digit(n % 10)));
        assert(t.drop_last() == decimal(n / 10));
        assert(t.last() == digit(n % 10));
        assert(digits_value(t) == digits_value(decimal(n / 10)) * 10 + (digit(n % 10) as u32 - 48));
        if n / 10 < 10 {
            lemma_digit(n / 10);
            assert(decimal(n / 10)[0] == digit(n / 10));
            assert('0' as u32 == 48);
        }
        assert(t[0] == decimal(n / 10)[0]);
        assert((n / 10) * 10 + n % 10 == n) by (nonlinear_arith);
        assert forall|i: int| 0 <= i < t.len() implies '0' <= #[trigger] t[i] <= '9' by {
            if i < t.len() - 1 {
                assert(t[i] == decimal(n / 10)[i]);
            }
        }
    }
}

} // verus!
