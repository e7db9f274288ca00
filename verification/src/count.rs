//! Reading a count of peers out of a query parameter.

use vstd::prelude::*;
use vstd::string::StrSliceExecFns;

verus! {

/// The value of a decimal digit.
pub open spec fn digit_value(c: char) -> Option<nat> {
    if '0' <= c <= '9' {
        Some((c as nat - '0' as nat) as nat)
    } else {
        None
    }
}

/// The number that a run of decimal digits writes, if all of them are digits.
/// The empty run writes zero.
pub open spec fn decimal(digits: Seq<char>) -> Option<nat>
    decreases digits.len(),
{
    if digits.len() == 0 {
        Some(0)
    } else {
        match (decimal(digits.drop_last()), digit_value(digits.last())) {
            (Some(high), Some(low)) => Some(high * 10 + low),
            _ => None,
        }
    }
}

/// The digits of a text: all of it but a leading plus sign.
pub open spec fn digits_of(text: Seq<char>) -> Seq<char> {
    if text.len() > 0 && text[0] == '+' {
        text.subrange(1, text.len() as int)
    } else {
        text
    }
}

/// The count that a text holds: an optional plus sign and then one or more
/// decimal digits that write a number within the machine's range. Any other
/// text holds none.
pub open spec fn count_in(text: Seq<char>) -> Option<usize> {
    if digits_of(text).len() == 0 {
        None
    } else {
        match decimal(digits_of(text)) {
            Some(n) => if n <= usize::MAX {
                Some(n as usize)
            } else {
                None
            },
            None => None,
        }
    }
}

/// A longer run of digits writes no smaller a number, and is a run of digits
/// only if its beginning is one.
proof fn lemma_decimal_grows(digits: Seq<char>, k: int)
    requires
        0 <= k <= digits.len(),
    ensures
        decimal(digits) matches Some(n) ==> decimal(digits.take(k)) matches Some(m) && m <= n,
    decreases digits.len(),
{
    if k < digits.len() {
        lemma_decimal_grows(digits.drop_last(), k);
        assert(digits.drop_last().take(k) =~= digits.take(k));
    } else {
        assert(digits.take(k) =~= digits);
    }
}

/// The value of `c` as a decimal digit, if it is one.
fn digit(c: char) -> (value: Option<usize>)
    ensures
        match value {
            Some(v) => digit_value(c) == Some(v as nat) && v <= 9,
            None => digit_value(c) is None,
        },
{
    if '0' <= c && c <= '9' {
        Some((c as u32 - '0' as u32) as usize)
    } else {
        None
    }
}

/// Reads the count that `text` holds.
pub fn parse_count(text: &str) -> (count: Option<usize>)
    ensures
        count == count_in(text@),
{
    let len = text.unicode_len();
    if len == 0 {
        return None;
    }
    let start: usize = if text.get_char(0) == '+' { 1 } else { 0 };
    if start == len {
        return None;
    }
    let ghost digits = digits_of(text@);
    let mut value: usize = 0;
    let mut i: usize = start;
    while i < len
        invariant
            start <= i <= len,
            len == text@.len(),
            digits == digits_of(text@),
            digits.len() == len - start,
            decimal(digits.take(i - start)) == Some(value as nat),
        decreases len - i,
    {
        let ghost read = digits.take(i - start);
        let ghost more = digits.take(i - start + 1);
        proof {
            assert(more.drop_last() =~= read);
            assert(more.last() == text@[i as int]);
            lemma_decimal_grows(digits, i - start + 1);
        }
        match digit(text.get_char(i)) {
            None => {
                return None;
            },
            Some(low) => {
                if value > (usize::MAX - low) / 10 {
                    assert(value * 10 + low > usize::MAX);
                    return None;
                }
                value = value * 10 + low;
            },
        }
        i += 1;
    }
    proof {
        assert(digits.take(len - start) =~= digits);
    }
    Some(value)
}

} // verus!
