//! The number of particles of a run, read from its command-line argument.

use vstd::prelude::*;
use vstd::string::StringSliceAdditionalSpecFns;

verus! {

/// No run starts with more particles than this.
pub const MAX_NUMBER_OF_PARTICLES: usize = 52;

/// The number of particles of a run whose argument is missing or is no number.
pub const DEFAULT_NUMBER_OF_PARTICLES: usize = 20;

/// The byte `b` is one of the ASCII digits `0` to `9`.
pub open spec fn is_digit(b: u8) -> bool {
    0x30 <= b <= 0x39
}

/// Every byte of `digits` is an ASCII digit.
pub open spec fn all_digits(digits: Seq<u8>) -> bool {
    forall|i: int| 0 <= i < digits.len() ==> is_digit(#[trigger] digits[i])
}

/// The number that a run of ASCII digits writes in base ten.
pub open spec fn decimal_value(digits: Seq<u8>) -> nat
    decreases digits.len(),
{
    if digits.len() == 0 {
        0
    } else {
        decimal_value(digits.drop_last()) * 10 + (digits.last() - 0x30) as nat
    }
}

/// The digits of a numeral: the text itself, or what follows a single
/// leading `+` that does not stand alone.
pub open spec fn numeral_digits(text: Seq<u8>) -> Seq<u8> {
    if text.len() > 1 && text[0] == 0x2B {
        text.subrange(1, text.len() as int)
    } else {
        text
    }
}

/// The number that `text` denotes as an unsigned decimal numeral, if it is
/// one and the number fits in a `usize`.
///
/// A numeral is one or more ASCII digits, with or without one `+` in front.
/// Nothing else is accepted: no blanks, no `-`, no digit separators.
pub open spec fn parsed_count(text: Seq<u8>) -> Option<usize> {
    let digits = numeral_digits(text);
    if digits.len() > 0 && all_digits(digits) && decimal_value(digits) <= usize::MAX {
        Some(decimal_value(digits) as usize)
    } else {
        None
    }
}

/// The number of particles of a run, given what its argument parsed to:
/// the parsed number, or the default where there is none, and in either
/// case at most [`MAX_NUMBER_OF_PARTICLES`].
pub open spec fn particle_count(parsed: Option<usize>) -> usize {
    let wanted = match parsed {
        Some(count) => count,
        None => DEFAULT_NUMBER_OF_PARTICLES,
    };
    if wanted <= MAX_NUMBER_OF_PARTICLES {
        wanted
    } else {
        MAX_NUMBER_OF_PARTICLES
    }
}

/// A longer run of digits never writes a smaller number than its prefix.
proof fn lemma_decimal_value_grows(digits: Seq<u8>, k: int)
    requires
        0 <= k <= digits.len(),
        all_digits(digits),
    ensures
        decimal_value(digits.take(k)) <= decimal_value(digits),
    decreases digits.len() - k,
{
    if k == digits.len() {
        assert(digits.take(k) =~= digits);
    } else {
        lemma_decimal_value_grows(digits, k + 1);
        let longer = digits.take(k + 1);
        assert(longer.drop_last() =~= digits.take(k));
        assert(is_digit(digits[k]));
        assert(longer.last() == digits[k]);
    }
}

/// Reads `text` as an unsigned decimal numeral.
pub fn parse_count(text: &[u8]) -> (count: Option<usize>)
    ensures
        count == parsed_count(text@),
{
    let n: usize = text.len();
    let start: usize = if n > 1 && text[0] == 0x2B { 1 } else { 0 };
    if n == 0 {
        return None;
    }
    let ghost digits = numeral_digits(text@);
    assert(digits =~= text@.subrange(start as int, n as int));
    let mut value: usize = 0;
    let mut i: usize = start;
    while i < n
        invariant
            start <= i <= n,
            n == text@.len(),
            digits == text@.subrange(start as int, n as int),
            digits == numeral_digits(text@),
            all_digits(digits.take(i - start)),
            value == decimal_value(digits.take(i - start)),
        decreases n - i,
    {
        let b: u8 = text[i];
        assert(digits[i - start] == b);
        if b < 0x30 || b > 0x39 {
            assert(!is_digit(digits[i - start]));
            return None;
        }
        let d: usize = (b - 0x30) as usize;
        let ghost longer = digits.take(i - start + 1);
        assert(longer.drop_last() =~= digits.take(i - start));
        assert(longer.last() == b);
        assert(all_digits(longer)) by {
            assert forall|k: int| 0 <= k < longer.len() implies is_digit(#[trigger] longer[k]) by {
                if k < longer.len() - 1 {
                    assert(longer[k] == digits.take(i - start)[k]);
                }
            }
        }
        assert(decimal_value(longer) == value * 10 + d);
        if value > (usize::MAX - d) / 10 {
            proof {
                if all_digits(digits) {
                    lemma_decimal_value_grows(digits, i - start + 1);
                }
            }
            return None;
        }
        value = value * 10 + d;
        i += 1;
    }
    assert(digits.take(i - start) =~= digits);
    Some(value)
}

/// The number of particles that a run starts with, from the first
/// command-line argument of the program, if it was given one.
///
/// An argument that is an unsigned decimal numeral asks for that many
/// particles; a missing one, or one that is no such numeral or does not fit
/// in a `usize`, stands for [`DEFAULT_NUMBER_OF_PARTICLES`]. The result is
/// capped at [`MAX_NUMBER_OF_PARTICLES`].
pub fn read_args(argument: Option<&str>) -> (count: usize)
    ensures
        count == particle_count(
            match argument {
                Some(text) => parsed_count(text.spec_bytes()),
                None => None,
            },
        ),
{
    let parsed: Option<usize> = match argument {
        Some(text) => parse_count(text.as_bytes()),
        None => None,
    };
    let wanted: usize = match parsed {
        Some(count) => count,
        None => DEFAULT_NUMBER_OF_PARTICLES,
    };
    if wanted <= MAX_NUMBER_OF_PARTICLES {
        wanted
    } else {
        MAX_NUMBER_OF_PARTICLES
    }
}

} // verus!
