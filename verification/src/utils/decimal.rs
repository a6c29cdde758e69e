//! Numbers written in decimal digits.
use vstd::prelude::*;

verus! {

/// Whether `byte` is one of the digits `0` to `9`.
pub open spec fn is_digit(byte: u8) -> bool {
    0x30 <= byte <= 0x39
}

/// The number that the decimal digits `digits` stand for.
pub open spec fn spec_digits_value(digits: Seq<u8>) -> nat
    decreases digits.len(),
{
    if digits.len() == 0 {
        0
    } else {
        10 * spec_digits_value(digits.drop_last()) + (digits.last() - 0x30) as nat
    }
}

/// The bytes of `text` without a plus sign at the front.
pub open spec fn unsigned_part(text: Seq<u8>) -> Seq<u8> {
    if text.len() > 0 && text[0] == 0x2b {
        text.skip(1)
    } else {
        text
    }
}

/// The number that `text` stands for: one or more decimal digits, with or
/// without a plus sign in front, that stand for a number of at most 64 bits.
/// Any other text stands for none.
pub open spec fn spec_parse_decimal(text: Seq<u8>) -> Option<u64> {
    let digits = unsigned_part(text);
    if digits.len() == 0 {
        None
    } else if exists|i: int| 0 <= i < digits.len() && !is_digit(#[trigger] digits[i]) {
        None
    } else if spec_digits_value(digits) > u64::MAX {
        None
    } else {
        Some(spec_digits_value(digits) as u64)
    }
}

/// More digits never stand for a smaller number.
proof fn lemma_digits_grow(digits: Seq<u8>, n: int)
    requires
        0 <= n <= digits.len(),
        forall|i: int| 0 <= i < digits.len() ==> is_digit(#[trigger] digits[i]),
    ensures
        spec_digits_value(digits.take(n)) <= spec_digits_value(digits),
    decreases digits.len() - n,
{
    if n < digits.len() {
        lemma_digits_grow(digits, n + 1);
        assert(digits.take(n + 1).drop_last() =~= digits.take(n));
        assert(is_digit(digits[n]));
        assert(digits.take(n + 1).last() == digits[n]);
    } else {
        assert(digits.take(n) =~= digits);
    }
}

/// Reads the number that `text` stands for.
pub fn parse_decimal(text: &[u8]) -> (number: Option<u64>)
    ensures
        number == spec_parse_decimal(text@),
{
    let start: usize = if text.len() > 0 && text[0] == 0x2b {
        1
    } else {
        0
    };
    let ghost digits = unsigned_part(text@);
    assert(digits =~= text@.skip(start as int));
    if start >= text.len() {
        return None;
    }
    let mut i: usize = start;
    while i < text.len()
        invariant
            start <= i <= text@.len(),
            start < text@.len(),
            digits == text@.skip(start as int),
            digits == unsigned_part(text@),
            forall|j: int| 0 <= j < i - start ==> is_digit(#[trigger] digits[j]),
        decreases text.len() - i,
    {
        if !(0x30 <= text[i] && text[i] <= 0x39) {
            assert(!is_digit(digits[i - start]));
            return None;
        }
        i = i + 1;
    }
    let mut value: u64 = 0;
    let mut i: usize = start;
    assert(digits.take(0) =~= Seq::<u8>::empty());
    while i < text.len()
        invariant
            start <= i <= text@.len(),
            start < text@.len(),
            digits == text@.skip(start as int),
            digits == unsigned_part(text@),
            forall|j: int| 0 <= j < digits.len() ==> is_digit(#[trigger] digits[j]),
            value == spec_digits_value(digits.take(i - start)),
        decreases text.len() - i,
    {
        assert(is_digit(digits[i - start]) && digits[i - start] == text@[i as int]);
        let digit: u64 = (text[i] - 0x30) as u64;
        proof {
            let more = digits.take(i - start + 1);
            assert(more.drop_last() =~= digits.take(i - start));
            assert(more.last() == text@[i as int]);
            assert(is_digit(digits[i - start]));
            lemma_digits_grow(digits, i - start + 1);
        }
        let tenfold = match value.checked_mul(10) {
            Some(tenfold) => tenfold,
            None => {
                return None;
            },
        };
        value = match tenfold.checked_add(digit) {
            Some(sum) => sum,
            None => {
                return None;
            },
        };
        i = i + 1;
    }
    assert(digits.take(digits.len() as int) =~= digits);
    Some(value)
}

} // verus!
