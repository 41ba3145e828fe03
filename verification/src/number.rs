//! Decimal integers in text: the numerals that are read, and the reading of
//! the integers written between separators.

use vstd::prelude::*;
use crate::text::{split, split_on, trim, trimmed, views};

verus! {

/// Whether `c` is one of the digits `0` to `9`.
pub open spec fn is_digit(c: char) -> bool {
    '0' <= c <= '9'
}

/// The number that the digit `c` stands for.
pub open spec fn digit_value(c: char) -> int {
    c as int - '0' as int
}

/// Whether `s` holds digits only.
pub open spec fn all_digits(s: Seq<char>) -> bool {
    forall|i: int| 0 <= i < s.len() ==> is_digit(#[trigger] s[i])
}

/// The number that the digits of `s` write in base ten.
pub open spec fn decimal_value(s: Seq<char>) -> int
    decreases s.len(),
{
    if s.len() == 0 {
        0
    } else {
        10 * decimal_value(s.drop_last()) + digit_value(s.last())
    }
}

/// The integer written by `s`, if `s` is a decimal numeral for an integer
/// between `min` and `max`: an optional sign followed by one or more digits
/// and nothing else. A plus sign is always accepted, a minus sign only where
/// `min` is negative.
pub open spec fn parse_decimal(s: Seq<char>, min: int, max: int) -> Option<int> {
    let minus = s.len() > 0 && s[0] == '-' && min < 0;
    let plus = s.len() > 0 && s[0] == '+';
    let digits = if minus || plus {
        s.drop_first()
    } else {
        s
    };
    let value = if minus {
        -decimal_value(digits)
    } else {
        decimal_value(digits)
    };
    if digits.len() > 0 && all_digits(digits) && min <= value <= max {
        Some(value)
    } else {
        None
    }
}

/// The 32-bit signed integer written by `s`, if any.
pub open spec fn parse_i32_spec(s: Seq<char>) -> Option<int> {
    parse_decimal(s, i32::MIN as int, i32::MAX as int)
}

/// The `usize` written by `s`, if any.
pub open spec fn parse_usize_spec(s: Seq<char>) -> Option<int> {
    parse_decimal(s, 0, usize::MAX as int)
}

/// A prefix of a digit string writes a number no larger than the whole.
proof fn lemma_decimal_value_prefix(s: Seq<char>, k: int)
    requires
        all_digits(s),
        0 <= k <= s.len(),
    ensures
        0 <= decimal_value(s.subrange(0, k)) <= decimal_value(s),
    decreases s.len() - k,
{
    if k == s.len() {
        assert(s.subrange(0, k) == s);
        lemma_decimal_value_nonnegative(s);
    } else {
        lemma_decimal_value_prefix(s, k + 1);
        let t = s.subrange(0, k + 1);
        assert(t.drop_last() == s.subrange(0, k));
        assert(is_digit(s[k]));
        assert(t.last() == s[k]);
        lemma_decimal_value_nonnegative(s.subrange(0, k));
    }
}

proof fn lemma_decimal_value_nonnegative(s: Seq<char>)
    requires
        all_digits(s),
    ensures
        0 <= decimal_value(s),
    decreases s.len(),
{
    if s.len() > 0 {
        assert(is_digit(s.last()));
        assert forall|i: int| 0 <= i < s.drop_last().len() implies is_digit(
            #[trigger] s.drop_last()[i],
        ) by {
            assert(s.drop_last()[i] == s[i]);
        }
        lemma_decimal_value_nonnegative(s.drop_last());
    }
}

/// Reads `s[from..]` as a run of digits writing a number up to `limit`.
fn parse_digits(s: &[char], from: usize, limit: u64) -> (r: Option<u64>)
    requires
        from <= s.len(),
    ensures
        r is Some <==> {
            let digits = s@.subrange(from as int, s.len() as int);
            digits.len() > 0 && all_digits(digits) && decimal_value(digits) <= limit
        },
        r is Some ==> r.unwrap() as int == decimal_value(s@.subrange(from as int, s.len() as int)),
        all_digits(s@.subrange(from as int, s.len() as int)) ==> 0 <= decimal_value(
            s@.subrange(from as int, s.len() as int),
        ),
{
    let ghost digits = s@.subrange(from as int, s.len() as int);
    proof {
        if all_digits(digits) {
            lemma_decimal_value_nonnegative(digits);
        }
    }
    if from == s.len() {
        return None;
    }
    let mut acc: u64 = 0;
    let mut i: usize = from;
    proof {
        assert(digits.subrange(0, 0) == Seq::<char>::empty());
    }
    while i < s.len()
        invariant
            from <= i <= s.len(),
            digits == s@.subrange(from as int, s.len() as int),
            all_digits(digits.subrange(0, i - from)),
            acc == decimal_value(digits.subrange(0, i - from)),
            acc <= limit,
        decreases s.len() - i,
    {
        let c: char = s[i];
        if !('0' <= c && c <= '9') {
            proof {
                assert(digits[i - from] == c);
            }
            return None;
        }
        let d: u128 = (c as u32 - '0' as u32) as u128;
        let next: u128 = acc as u128 * 10 + d;
        proof {
            let t = digits.subrange(0, i - from + 1);
            assert(t.drop_last() == digits.subrange(0, i - from));
            assert(t.last() == c);
            assert(decimal_value(t) == next);
            assert forall|j: int| 0 <= j < t.len() implies is_digit(#[trigger] t[j]) by {
                if j < t.len() - 1 {
                    assert(t[j] == digits.subrange(0, i - from)[j]);
                }
            }
            if next > limit && all_digits(digits) {
                lemma_decimal_value_prefix(digits, i - from + 1);
            }
        }
        if next > limit as u128 {
            return None;
        }
        acc = next as u64;
        i += 1;
    }
    proof {
        assert(digits.subrange(0, i - from) == digits);
    }
    Some(acc)
}

/// Reads `s` as a 32-bit signed integer in decimal notation.
pub fn parse_i32(s: &[char]) -> (r: Option<i32>)
    ensures
        r is Some <==> parse_i32_spec(s@) is Some,
        r is Some ==> r.unwrap() as int == parse_i32_spec(s@).unwrap(),
{
    if s.len() == 0 {
        return None;
    }
    proof {
        assert(s@.subrange(0, s.len() as int) == s@);
        assert(s@.subrange(1, s.len() as int) == s@.drop_first());
    }
    if s[0] == '-' {
        match parse_digits(s, 1, 0x8000_0000) {
            Some(m) => Some((-(m as i64)) as i32),
            None => None,
        }
    } else if s[0] == '+' {
        match parse_digits(s, 1, 0x7fff_ffff) {
            Some(m) => Some(m as i32),
            None => None,
        }
    } else {
        match parse_digits(s, 0, 0x7fff_ffff) {
            Some(m) => Some(m as i32),
            None => None,
        }
    }
}

/// Reads `s` as a `usize` in decimal notation.
pub fn parse_usize(s: &[char]) -> (r: Option<usize>)
    ensures
        r is Some <==> parse_usize_spec(s@) is Some,
        r is Some ==> r.unwrap() as int == parse_usize_spec(s@).unwrap(),
{
    if s.len() == 0 {
        return None;
    }
    proof {
        assert(s@.subrange(0, s.len() as int) == s@);
        assert(s@.subrange(1, s.len() as int) == s@.drop_first());
    }
    let from: usize = if s[0] == '+' {
        1
    } else {
        0
    };
    match parse_digits(s, from, usize::MAX as u64) {
        Some(m) => Some(m as usize),
        None => None,
    }
}

/// The 32-bit integers among `pieces`: each piece is trimmed and read as a
/// decimal integer, and the pieces that are no such integer are left out.
pub open spec fn kept_numbers(pieces: Seq<Seq<char>>) -> Seq<i32>
    decreases pieces.len(),
{
    if pieces.len() == 0 {
        Seq::empty()
    } else {
        let init = kept_numbers(pieces.drop_last());
        match parse_i32_spec(trimmed(pieces.last())) {
            Some(v) => init.push(v as i32),
            None => init,
        }
    }
}

/// The integers written in `field` between occurrences of `sep`.
pub open spec fn numbers_in(field: Seq<char>, sep: char) -> Seq<i32> {
    kept_numbers(split_on(field, sep))
}

/// Reads the integers written in `field` between occurrences of `sep`,
/// leaving out what is not an integer.
pub fn numbers(field: &[char], sep: char) -> (out: Vec<i32>)
    ensures
        out@ == numbers_in(field@, sep),
{
    let pieces: Vec<Vec<char>> = split(field, sep);
    let mut out: Vec<i32> = Vec::new();
    let mut i: usize = 0;
    while i < pieces.len()
        invariant
            i <= pieces.len(),
            out@ == kept_numbers(views(pieces@).take(i as int)),
        decreases pieces.len() - i,
    {
        proof {
            let t = views(pieces@).take(i + 1);
            assert(t.drop_last() == views(pieces@).take(i as int));
            assert(t.last() == pieces@[i as int]@);
        }
        match parse_i32(trim(pieces[i].as_slice())) {
            Some(v) => {
                out.push(v);
            },
            None => {},
        }
        i += 1;
    }
    proof {
        assert(views(pieces@).take(pieces.len() as int) == views(pieces@));
    }
    out
}

} // verus!
