//! Non-negative integers written in base 10.

use vstd::prelude::*;

verus! {

/// A decimal digit.
pub open spec fn is_digit(c: char) -> bool {
    '0' <= c <= '9'
}

/// The number that a decimal digit stands for.
pub open spec fn digit_value(c: char) -> nat {
    (c as u32 - '0' as u32) as nat
}

/// The number that a run of decimal digits writes in base 10.
pub open spec fn decimal_value(digits: Seq<char>) -> nat
    decreases digits.len(),
{
    if digits.len() == 0 {
        0
    } else {
        10 * decimal_value(digits.drop_last()) + digit_value(digits.last())
    }
}

/// A non-negative integer written in base 10: one digit or more, and nothing
/// else.
pub open spec fn is_decimal(token: Seq<char>) -> bool {
    &&& token.len() > 0
    &&& forall|i: int| 0 <= i < token.len() ==> is_digit(#[trigger] token[i])
}

/// A decimal without a needless leading zero.
pub open spec fn is_canonical_decimal(token: Seq<char>) -> bool {
    is_decimal(token) && (token.len() == 1 || token[0] != '0')
}

/// What a text means as an unsigned number of this machine: a decimal, after
/// one `+` or none, with a value that fits.
pub open spec fn unsigned_value(text: Seq<char>) -> Option<nat> {
    let digits = if text.len() > 0 && text[0] == '+' {
        text.skip(1)
    } else {
        text
    };
    if is_decimal(digits) && decimal_value(digits) <= usize::MAX {
        Some(decimal_value(digits))
    } else {
        None
    }
}

/// The digits read so far never write more than all the digits do.
pub proof fn lemma_decimal_value_grows(digits: Seq<char>, read: int)
    requires
        0 <= read <= digits.len(),
    ensures
        decimal_value(digits.take(read)) <= decimal_value(digits),
    decreases digits.len() - read,
{
    if read == digits.len() {
        assert(digits.take(read) =~= digits);
    } else {
        lemma_decimal_value_grows(digits.drop_last(), read);
        assert(digits.drop_last().take(read) =~= digits.take(read));
    }
}

/// The value of a decimal, where this machine can hold it.
pub fn digits_value(digits: &str) -> (value: Option<usize>)
    ensures
        match value {
            Some(n) => is_decimal(digits@) && decimal_value(digits@) == n,
            None => !is_decimal(digits@) || decimal_value(digits@) > usize::MAX,
        },
{
    let total = digits.unicode_len();
    if total == 0 {
        return None;
    }
    let mut value: usize = 0;
    let mut at: usize = 0;
    for c in it: digits.chars()
        invariant
            it.seq() == digits@,
            total == digits@.len(),
            at == it.index(),
            at <= total,
            value == decimal_value(digits@.take(at as int)),
            forall|i: int| 0 <= i < at ==> is_digit(#[trigger] digits@[i]),
    {
        if !(c >= '0' && c <= '9') {
            return None;
        }
        let digit = (c as u32 - '0' as u32) as usize;
        assert(digits@.take(at + 1).drop_last() =~= digits@.take(at as int));
        if value > (usize::MAX - digit) / 10 {
            proof {
                lemma_decimal_value_grows(digits@, at + 1);
            }
            return None;
        }
        value = value * 10 + digit;
        at += 1;
    }
    assert(digits@.take(total as int) =~= digits@);
    Some(value)
}

/// Reads an unsigned number as this machine's own parsing does: a decimal,
/// after one `+` or none.
pub fn parse_unsigned(text: &str) -> (value: Option<usize>)
    ensures
        match value {
            Some(n) => unsigned_value(text@) == Some(n as nat),
            None => unsigned_value(text@) is None,
        },
{
    let total = text.unicode_len();
    if total > 0 && text.get_char(0) == '+' {
        let digits = text.substring_char(1, total);
        digits_value(digits)
    } else {
        digits_value(text)
    }
}

} // verus!
