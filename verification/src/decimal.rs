//! Decimal numerals on the wire: what a line of digits denotes and how an
//! unsigned integer is written.

use vstd::prelude::*;

verus! {

pub const ZERO: u8 = 48;

pub const PLUS: u8 = 43;

pub const MINUS: u8 = 45;

/// `b` is one of the ASCII digits `0` to `9`.
pub open spec fn is_digit(b: u8) -> bool {
    48 <= b <= 57
}

/// Number of consecutive ASCII digits in `s` starting at index `from`.
pub open spec fn digit_run(s: Seq<u8>, from: int) -> nat
    decreases s.len() - from,
{
    if 0 <= from < s.len() && is_digit(s[from]) {
        1 + digit_run(s, from + 1)
    } else {
        0
    }
}

/// The number that the digits `s[lo..hi]` denote in base ten.
pub open spec fn digits_value(s: Seq<u8>, lo: int, hi: int) -> nat
    decreases hi - lo,
{
    if hi <= lo {
        0
    } else {
        digits_value(s, lo, hi - 1) * 10 + (s[hi - 1] - 48) as nat
    }
}

/// What a line of text denotes as an unsigned 64-bit number.
///
/// An optional sign comes first, then the longest run of digits; whatever
/// follows the digits is ignored. Text that is empty or starts with neither a
/// sign nor a digit denotes nothing, and neither does a value that does not
/// fit. After a minus sign only zero is representable.
pub open spec fn atoi_u64(s: Seq<u8>) -> Option<u64> {
    let signed = s.len() > 0 && (s[0] == PLUS || s[0] == MINUS);
    let start: int = if signed { 1 } else { 0 };
    let end = start + digit_run(s, start);
    let value = digits_value(s, start, end);
    if end == 0 {
        None
    } else if signed && s[0] == MINUS {
        if value == 0 { Some(0u64) } else { None }
    } else if value > u64::MAX {
        None
    } else {
        Some(value as u64)
    }
}

/// Calls `atoi::atoi::<u64>`.
///
/// The contract restates that function for `u64`: it accepts one leading
/// `+` or `-`, reads the digits that follow and stops at the first other
/// byte, returns `None` when it consumed nothing or when the checked
/// arithmetic overflowed (or, after `-`, went below zero), and the number
/// otherwise.
#[verifier::external_body]
pub(crate) fn parse_decimal(text: &[u8]) -> (r: Option<u64>)
    ensures
        r == atoi_u64(text@),
{
    atoi::atoi::<u64>(text)
}

/// The decimal numeral of `n`, most significant digit first, without
/// leading zeros.
pub open spec fn decimal_digits(n: nat) -> Seq<u8>
    decreases n,
{
    if n < 10 {
        seq![(48 + n) as u8]
    } else {
        decimal_digits(n / 10).push((48 + n % 10) as u8)
    }
}

/// Every byte of `s` is a digit.
pub open spec fn all_digits(s: Seq<u8>) -> bool {
    forall|i: int| 0 <= i < s.len() ==> is_digit(#[trigger] s[i])
}

/// A numeral is never empty and holds digits only.
pub proof fn lemma_decimal_digits_shape(n: nat)
    ensures
        decimal_digits(n).len() >= 1,
        all_digits(decimal_digits(n)),
    decreases n,
{
    if n >= 10 {
        lemma_decimal_digits_shape(n / 10);
    }
}

/// Appends the decimal numeral of `n` to `out`.
pub fn write_decimal(out: &mut Vec<u8>, n: u64)
    ensures
        final(out)@ == old(out)@ + decimal_digits(n as nat),
    decreases n,
{
    if n < 10 {
        let d: u8 = (48 + n) as u8;
        out.push(d);
        assert(final(out)@ =~= old(out)@ + decimal_digits(n as nat));
    } else {
        write_decimal(out, n / 10);
        let d: u8 = (48 + n % 10) as u8;
        out.push(d);
        assert(final(out)@ =~= old(out)@ + decimal_digits(n as nat));
    }
}

} // verus!
