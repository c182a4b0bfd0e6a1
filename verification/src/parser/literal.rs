//! The value of an integer literal.

use crate::chars::is_digit;
use vstd::prelude::*;

verus! {

/// Whether `s` is a non-empty run of decimal digits.
pub open spec fn is_decimal(s: Seq<char>) -> bool {
    s.len() > 0 && forall|i: int| 0 <= i < s.len() ==> is_digit(#[trigger] s[i])
}

/// The number that the digit `c` stands for.
pub open spec fn digit_value(c: char) -> nat {
    (c as u32 - '0' as u32) as nat
}

/// The number that the decimal digits `s` write.
pub open spec fn decimal_value(s: Seq<char>) -> nat
    decreases s.len(),
{
    if s.len() == 0 {
        0
    } else {
        decimal_value(s.drop_last()) * 10 + digit_value(s.last())
    }
}

/// The value of the integer literal written `s`: the number its digits
/// write, where `s` is a run of digits and the number fits in 64 bits with
/// a sign.
pub open spec fn integer_value(s: Seq<char>) -> Option<int> {
    if is_decimal(s) && decimal_value(s) <= i64::MAX {
        Some(decimal_value(s) as int)
    } else {
        None
    }
}

/// A longer run of digits writes no smaller a number.
pub proof fn lemma_decimal_value_grows(s: Seq<char>, n: int)
    requires
        0 <= n <= s.len(),
    ensures
        decimal_value(s.take(n)) <= decimal_value(s),
    decreases s.len() - n,
{
    if n < s.len() {
        lemma_decimal_value_grows(s, n + 1);
        assert(s.take(n + 1).drop_last() =~= s.take(n));
    } else {
        assert(s.take(n) =~= s);
    }
}

/// Converts the text of an integer literal to its value. The conversion
/// fails on text that is not a run of decimal digits, and on a number too
/// large for 64 bits with a sign.
pub fn parse_integer(text: &str) -> (r: Option<i64>)
    ensures
        match r {
            Some(v) => integer_value(text@) == Some(v as int),
            None => integer_value(text@) is None,
        },
{
    let chars = crate::lexer::characters(text);
    let n = chars.len();
    if n == 0 {
        return None;
    }
    let mut value: i64 = 0;
    let mut i: usize = 0;
    while i < n
        invariant
            n == chars.len(),
            chars@ == text@,
            0 <= i <= n,
            forall|k: int| 0 <= k < i ==> is_digit(#[trigger] chars@[k]),
            0 <= value,
            value == decimal_value(chars@.take(i as int)),
        decreases n - i,
    {
        let c = chars[i];
        if !crate::chars::digit(c) {
            return None;
        }
        let d = (c as u32 - '0' as u32) as i64;
        proof {
            assert(chars@.take(i + 1).drop_last() =~= chars@.take(i as int));
            assert(chars@.take(i + 1).last() == c);
            lemma_decimal_value_grows(chars@, i + 1);
        }
        if value > (i64::MAX - d) / 10 {
            return None;
        }
        value = value * 10 + d;
        i = i + 1;
    }
    proof {
        assert(chars@.take(n as int) =~= chars@);
    }
    Some(value)
}

} // verus!
