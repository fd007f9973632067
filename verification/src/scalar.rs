//! Cell types: what a field's text can be read as.

use vstd::prelude::*;

verus! {

/// A type of cell. Each text stands for at most one value of the type, and
/// `parse` finds it.
pub trait Scalar: Copy + Default {
    /// The value that `text` stands for, if it stands for one.
    spec fn parse_spec(text: Seq<char>) -> Option<Self>;

    /// Reads `text` as a value of this type.
    fn parse(text: &str) -> (value: Option<Self>)
        ensures
            value == Self::parse_spec(text@),
    ;
}

/// Whether `c` is one of the ten decimal digits.
pub open spec fn is_digit(c: char) -> bool {
    '0' <= c <= '9'
}

/// The number from 0 to 9 that the digit `c` stands for.
pub open spec fn digit_value(c: char) -> int {
    c as int - '0' as int
}

/// Whether `text` holds decimal digits only.
pub open spec fn all_digits(text: Seq<char>) -> bool {
    forall|i: int| 0 <= i < text.len() ==> is_digit(#[trigger] text[i])
}

/// The number that a run of decimal digits denotes, most significant digit
/// first; leading zeros do not count.
pub open spec fn decimal_value(digits: Seq<char>) -> int
    decreases digits.len(),
{
    if digits.len() == 0 {
        0
    } else {
        10 * decimal_value(digits.drop_last()) + digit_value(digits.last())
    }
}

/// Whether `text` begins with a sign: `+` always counts, `-` only for a
/// signed type.
pub open spec fn has_sign(text: Seq<char>, signed: bool) -> bool {
    text.len() > 0 && (text[0] == '+' || (signed && text[0] == '-'))
}

/// The integer that `text` denotes: an optional sign, then at least one
/// decimal digit and nothing else.
pub open spec fn integer_spec(text: Seq<char>, signed: bool) -> Option<int> {
    let digits = if has_sign(text, signed) {
        text.skip(1)
    } else {
        text
    };
    if digits.len() > 0 && all_digits(digits) {
        if has_sign(text, signed) && text[0] == '-' {
            Some(-decimal_value(digits))
        } else {
            Some(decimal_value(digits))
        }
    } else {
        None
    }
}

/// The integer that `text` denotes, provided that it lies between `min`
/// and `max`.
pub open spec fn integer_in_range(text: Seq<char>, signed: bool, min: int, max: int) -> Option<
    int,
> {
    match integer_spec(text, signed) {
        Some(v) => if min <= v <= max {
            Some(v)
        } else {
            None
        },
        None => None,
    }
}

/// A run of digits denotes at least as much as any of its prefixes.
pub proof fn lemma_decimal_value_prefix(digits: Seq<char>, len: int)
    requires
        all_digits(digits),
        0 <= len <= digits.len(),
    ensures
        0 <= decimal_value(digits.take(len)) <= decimal_value(digits),
    decreases digits.len() - len,
{
    if len == digits.len() {
        assert(digits.take(len) =~= digits);
        lemma_decimal_value_nonnegative(digits);
    } else {
        lemma_decimal_value_prefix(digits, len + 1);
        assert(digits.take(len + 1).drop_last() =~= digits.take(len));
        assert(is_digit(digits.take(len + 1).last()));
        lemma_decimal_value_nonnegative(digits.take(len));
    }
}

/// A run of digits denotes no negative number.
pub proof fn lemma_decimal_value_nonnegative(digits: Seq<char>)
    requires
        all_digits(digits),
    ensures
        0 <= decimal_value(digits),
    decreases digits.len(),
{
    if digits.len() > 0 {
        lemma_decimal_value_nonnegative(digits.drop_last());
        assert(is_digit(digits.last()));
    }
}

/// Reads `text` as an integer between `min` and `max`. A signed type takes
/// a leading `-`; every type takes a leading `+`.
pub fn parse_integer(text: &str, signed: bool, min: i128, max: i128) -> (value: Option<i128>)
    ensures
        match value {
            Some(v) => integer_in_range(text@, signed, min as int, max as int) == Some(v as int),
            None => integer_in_range(text@, signed, min as int, max as int) is None,
        },
{
    let mut first: bool = true;
    let mut negative: bool = false;
    let mut seen_digit: bool = false;
    let mut acc: i128 = 0;
    let ghost sign_len: int = if has_sign(text@, signed) {
        1
    } else {
        0
    };
    let ghost digits = text@.skip(sign_len);
    proof {
        assert(text@.skip(0) =~= text@);
    }
    for c in it: text.chars()
        invariant
            it.seq() == text@,
            sign_len == if has_sign(text@, signed) { 1int } else { 0int },
            digits == if has_sign(text@, signed) { text@.skip(1) } else { text@ },
            digits == text@.skip(sign_len),
            first == (it.index() == 0),
            first ==> !negative && !seen_digit && acc == 0,
            !first ==> sign_len <= it.index(),
            !first ==> negative == (has_sign(text@, signed) && text@[0] == '-'),
            !first ==> seen_digit == (it.index() > sign_len),
            !first ==> all_digits(text@.subrange(sign_len, it.index() as int)),
            !first && negative ==> acc == -decimal_value(
                text@.subrange(sign_len, it.index() as int),
            ),
            !first && !negative ==> acc == decimal_value(
                text@.subrange(sign_len, it.index() as int),
            ),
            negative ==> acc <= 0,
            !negative ==> acc >= 0,
    {
        let ghost k: int = it.index() as int;
        if first && (c == '+' || (signed && c == '-')) {
            negative = c == '-';
            proof {
                assert(text@.subrange(1, 1) =~= Seq::<char>::empty());
            }
        } else if '0' <= c && c <= '9' {
            let d: i128 = (c as u32 - '0' as u32) as i128;
            proof {
                let grown = text@.subrange(sign_len, k + 1);
                assert(grown.drop_last() =~= text@.subrange(sign_len, k));
                assert(grown.last() == c);
                assert(decimal_value(grown) == 10 * decimal_value(grown.drop_last()) + d);
                assert(digits.take(k + 1 - sign_len) =~= grown);
                if all_digits(digits) {
                    lemma_decimal_value_prefix(digits, k + 1 - sign_len);
                }
            }
            let next = match acc.checked_mul(10) {
                Some(tenfold) => if negative {
                    tenfold.checked_sub(d)
                } else {
                    tenfold.checked_add(d)
                },
                None => None,
            };
            match next {
                Some(n) => {
                    acc = n;
                },
                None => {
                    return None;
                },
            }
            seen_digit = true;
        } else {
            proof {
                assert(digits[k - sign_len] == c);
            }
            return None;
        }
        first = false;
    }
    proof {
        assert(text@.subrange(sign_len, text@.len() as int) =~= digits);
    }
    if seen_digit && min <= acc && acc <= max {
        Some(acc)
    } else {
        None
    }
}

impl Scalar for i8 {
    open spec fn parse_spec(text: Seq<char>) -> Option<i8> {
        match integer_in_range(text, true, i8::MIN as int, i8::MAX as int) {
            Some(v) => Some(v as i8),
            None => None,
        }
    }

    fn parse(text: &str) -> (value: Option<i8>) {
        match parse_integer(text, true, i8::MIN as i128, i8::MAX as i128) {
            Some(v) => Some(v as i8),
            None => None,
        }
    }
}

impl Scalar for i16 {
    open spec fn parse_spec(text: Seq<char>) -> Option<i16> {
        match integer_in_range(text, true, i16::MIN as int, i16::MAX as int) {
            Some(v) => Some(v as i16),
            None => None,
        }
    }

    fn parse(text: &str) -> (value: Option<i16>) {
        match parse_integer(text, true, i16::MIN as i128, i16::MAX as i128) {
            Some(v) => Some(v as i16),
            None => None,
        }
    }
}

impl Scalar for i32 {
    open spec fn parse_spec(text: Seq<char>) -> Option<i32> {
        match integer_in_range(text, true, i32::MIN as int, i32::MAX as int) {
            Some(v) => Some(v as i32),
            None => None,
        }
    }

    fn parse(text: &str) -> (value: Option<i32>) {
        match parse_integer(text, true, i32::MIN as i128, i32::MAX as i128) {
            Some(v) => Some(v as i32),
            None => None,
        }
    }
}

impl Scalar for i64 {
    open spec fn parse_spec(text: Seq<char>) -> Option<i64> {
        match integer_in_range(text, true, i64::MIN as int, i64::MAX as int) {
            Some(v) => Some(v as i64),
            None => None,
        }
    }

    fn parse(text: &str) -> (value: Option<i64>) {
        match parse_integer(text, true, i64::MIN as i128, i64::MAX as i128) {
            Some(v) => Some(v as i64),
            None => None,
        }
    }
}

impl Scalar for isize {
    open spec fn parse_spec(text: Seq<char>) -> Option<isize> {
        match integer_in_range(text, true, isize::MIN as int, isize::MAX as int) {
            Some(v) => Some(v as isize),
            None => None,
        }
    }

    fn parse(text: &str) -> (value: Option<isize>) {
        match parse_integer(text, true, isize::MIN as i128, isize::MAX as i128) {
            Some(v) => Some(v as isize),
            None => None,
        }
    }
}

impl Scalar for i128 {
    open spec fn parse_spec(text: Seq<char>) -> Option<i128> {
        match integer_in_range(text, true, i128::MIN as int, i128::MAX as int) {
            Some(v) => Some(v as i128),
            None => None,
        }
    }

    fn parse(text: &str) -> (value: Option<i128>) {
        parse_integer(text, true, i128::MIN, i128::MAX)
    }
}

impl Scalar for u8 {
    open spec fn parse_spec(text: Seq<char>) -> Option<u8> {
        match integer_in_range(text, false, u8::MIN as int, u8::MAX as int) {
            Some(v) => Some(v as u8),
            None => None,
        }
    }

    fn parse(text: &str) -> (value: Option<u8>) {
        match parse_integer(text, false, u8::MIN as i128, u8::MAX as i128) {
            Some(v) => Some(v as u8),
            None => None,
        }
    }
}

impl Scalar for u16 {
    open spec fn parse_spec(text: Seq<char>) -> Option<u16> {
        match integer_in_range(text, false, u16::MIN as int, u16::MAX as int) {
            Some(v) => Some(v as u16),
            None => None,
        }
    }

    fn parse(text: &str) -> (value: Option<u16>) {
        match parse_integer(text, false, u16::MIN as i128, u16::MAX as i128) {
            Some(v) => Some(v as u16),
            None => None,
        }
    }
}

impl Scalar for u32 {
    open spec fn parse_spec(text: Seq<char>) -> Option<u32> {
        match integer_in_range(text, false, u32::MIN as int, u32::MAX as int) {
            Some(v) => Some(v as u32),
            None => None,
        }
    }

    fn parse(text: &str) -> (value: Option<u32>) {
        match parse_integer(text, false, u32::MIN as i128, u32::MAX as i128) {
            Some(v) => Some(v as u32),
            None => None,
        }
    }
}

impl Scalar for u64 {
    open spec fn parse_spec(text: Seq<char>) -> Option<u64> {
        match integer_in_range(text, false, u64::MIN as int, u64::MAX as int) {
            Some(v) => Some(v as u64),
            None => None,
        }
    }

    fn parse(text: &str) -> (value: Option<u64>) {
        match parse_integer(text, false, u64::MIN as i128, u64::MAX as i128) {
            Some(v) => Some(v as u64),
            None => None,
        }
    }
}

impl Scalar for usize {
    open spec fn parse_spec(text: Seq<char>) -> Option<usize> {
        match integer_in_range(text, false, usize::MIN as int, usize::MAX as int) {
            Some(v) => Some(v as usize),
            None => None,
        }
    }

    fn parse(text: &str) -> (value: Option<usize>) {
        match parse_integer(text, false, usize::MIN as i128, usize::MAX as i128) {
            Some(v) => Some(v as usize),
            None => None,
        }
    }
}

} // verus!
