//! Decimal numbers read from text.

use crate::text::chars_of;
use vstd::prelude::*;

verus! {

pub open spec fn is_digit(c: char) -> bool {
    '0' <= c <= '9'
}

/// The number a decimal digit stands for.
pub open spec fn digit_value(c: char) -> nat
    recommends
        is_digit(c),
{
    (c as u32 - '0' as u32) as nat
}

pub open spec fn all_digits(s: Seq<char>) -> bool {
    forall|i: int| 0 <= i < s.len() ==> is_digit(#[trigger] s[i])
}

/// The number a run of decimal digits stands for; leading zeros count for
/// nothing.
pub open spec fn decimal_value(s: Seq<char>) -> nat
    decreases s.len(),
{
    if s.len() == 0 {
        0
    } else {
        decimal_value(s.drop_last()) * 10 + digit_value(s.last())
    }
}

/// The number that `s` denotes if it is made of one or more decimal digits
/// whose value is at most `max`.
pub open spec fn digits_up_to(s: Seq<char>, max: nat) -> Option<nat> {
    if s.len() > 0 && all_digits(s) && decimal_value(s) <= max {
        Some(decimal_value(s))
    } else {
        None
    }
}

/// The unsigned number that `s` denotes: an optional `+`, then digits, with a
/// value of at most `max`.
pub open spec fn unsigned_of(s: Seq<char>, max: nat) -> Option<nat> {
    if s.len() > 0 && s[0] == '+' {
        digits_up_to(s.drop_first(), max)
    } else {
        digits_up_to(s, max)
    }
}

/// The signed 64-bit number that `s` denotes: an optional `+` or `-`, then
/// digits, with a value inside the range of `i64`.
pub open spec fn i64_of(s: Seq<char>) -> Option<int> {
    if s.len() > 0 && s[0] == '-' {
        match digits_up_to(s.drop_first(), 0x8000_0000_0000_0000) {
            Some(v) => Some(-(v as int)),
            None => None,
        }
    } else {
        match unsigned_of(s, 0x7fff_ffff_ffff_ffff) {
            Some(v) => Some(v as int),
            None => None,
        }
    }
}

/// A longer run of digits never stands for less than one of its prefixes.
proof fn lemma_prefix_value(s: Seq<char>, k: int)
    requires
        0 <= k <= s.len(),
    ensures
        decimal_value(s.take(k)) <= decimal_value(s),
    decreases s.len() - k,
{
    if k == s.len() {
        assert(s.take(k) =~= s);
    } else {
        lemma_prefix_value(s, k + 1);
        assert(s.take(k + 1).drop_last() =~= s.take(k));
    }
}

/// Reads the digits of `chars` from offset `start` to the end.
fn read_digits(chars: &Vec<char>, start: usize, max: u64) -> (result: Option<u64>)
    requires
        start <= chars@.len(),
    ensures
        result == match digits_up_to(chars@.skip(start as int), max as nat) {
            Some(v) => Some(v as u64),
            None => None,
        },
{
    let ghost digits = chars@.skip(start as int);
    if start == chars.len() {
        return None;
    }
    let mut value: u64 = 0;
    let mut i: usize = start;
    assert(digits.take(0) =~= Seq::<char>::empty());
    while i < chars.len()
        invariant
            start <= i <= chars@.len(),
            digits == chars@.skip(start as int),
            all_digits(digits.take(i - start)),
            value == decimal_value(digits.take(i - start)),
            value <= max,
        decreases chars@.len() - i,
    {
        let c = chars[i];
        let ghost next = digits.take(i - start + 1);
        assert(next.drop_last() =~= digits.take(i - start));
        assert(next.last() == c);
        if c < '0' || c > '9' {
            assert(!is_digit(digits[i - start]));
            return None;
        }
        let d: u64 = (c as u32 - '0' as u32) as u64;
        if d > max || value > (max - d) / 10 {
            proof {
                lemma_prefix_value(digits, i - start + 1);
            }
            return None;
        }
        value = value * 10 + d;
        assert(all_digits(next)) by {
            assert forall|j: int| 0 <= j < next.len() implies is_digit(#[trigger] next[j]) by {
                if j < i - start {
                    assert(next[j] == digits.take(i - start)[j]);
                }
            }
        }
        i += 1;
    }
    assert(digits.take(i - start) =~= digits);
    Some(value)
}

/// Reads an unsigned number of at most `max` from the whole of `chars`.
fn read_unsigned(chars: &Vec<char>, max: u64) -> (result: Option<u64>)
    ensures
        result == match unsigned_of(chars@, max as nat) {
            Some(v) => Some(v as u64),
            None => None,
        },
{
    if chars.len() > 0 && chars[0] == '+' {
        assert(chars@.skip(1) =~= chars@.drop_first());
        read_digits(chars, 1, max)
    } else {
        assert(chars@.skip(0) =~= chars@);
        read_digits(chars, 0, max)
    }
}

/// Reads `s` as a `usize`: an optional `+` and then decimal digits. Anything
/// else, an empty text and a value that does not fit give `None`.
pub fn parse_usize(s: &str) -> (result: Option<usize>)
    ensures
        result == match unsigned_of(s@, usize::MAX as nat) {
            Some(v) => Some(v as usize),
            None => None,
        },
{
    let chars = chars_of(s);
    match read_unsigned(&chars, usize::MAX as u64) {
        Some(v) => Some(v as usize),
        None => None,
    }
}

/// Reads `s` as an `i64`: an optional sign and then decimal digits. Anything
/// else, an empty text and a value that does not fit give `None`.
pub fn parse_i64(s: &str) -> (result: Option<i64>)
    ensures
        result == match i64_of(s@) {
            Some(v) => Some(v as i64),
            None => None,
        },
{
    let chars = chars_of(s);
    if chars.len() > 0 && chars[0] == '-' {
        assert(chars@.skip(1) =~= chars@.drop_first());
        match read_digits(&chars, 1, 0x8000_0000_0000_0000) {
            Some(v) => {
                if v == 0x8000_0000_0000_0000 {
                    Some(i64::MIN)
                } else {
                    Some(-(v as i64))
                }
            },
            None => None,
        }
    } else {
        match read_unsigned(&chars, 0x7fff_ffff_ffff_ffff) {
            Some(v) => Some(v as i64),
            None => None,
        }
    }
}

} // verus!
