//! Durations written as decimal numbers with unit suffixes, such as `1m30s`.
use crate::binary64::{
    exact_fractions_are_exact, fraction_nanos, fractional_nanos, MAX_FRACTION, MAX_UNIT,
};
use crate::bytes::{is_at, stands_at};
use vstd::arithmetic::power::pow;
use vstd::prelude::*;
use vstd::utf8::encode_utf8;

verus! {

/// The shortest accepted duration, in nanoseconds.
pub const MIN_TIMEOUT_NANOS: u64 = 1_000_000_000;

/// The longest accepted duration, in nanoseconds.
pub const MAX_TIMEOUT_NANOS: u64 = 600_000_000_000;

/// An ASCII digit.
pub open spec fn is_digit(byte: u8) -> bool {
    0x30 <= byte <= 0x39
}

/// The position after the digits that start at `index`.
pub open spec fn digits_end(bytes: Seq<u8>, index: int) -> int
    decreases bytes.len() - index,
{
    if 0 <= index < bytes.len() && is_digit(bytes[index]) {
        digits_end(bytes, index + 1)
    } else {
        index
    }
}

/// The number that decimal digits stand for.
pub open spec fn decimal(digits: Seq<u8>) -> nat
    decreases digits.len(),
{
    if digits.len() == 0 {
        0
    } else {
        10 * decimal(digits.drop_last()) + (digits.last() - 0x30) as nat
    }
}

/// The value of the leading digits that stay within the largest fraction, and
/// how many they are. Later digits are dropped.
pub open spec fn leading_fraction(digits: Seq<u8>) -> (nat, nat)
    decreases digits.len(),
{
    if digits.len() == 0 {
        (0, 0)
    } else {
        let (value, count) = leading_fraction(digits.drop_last());
        let next = 10 * value + (digits.last() - 0x30) as nat;
        if count + 1 == digits.len() && next <= MAX_FRACTION {
            (next, count + 1)
        } else {
            (value, count)
        }
    }
}

/// The unit suffix at `index`: its length in bytes and its nanoseconds.
pub open spec fn unit_at(bytes: Seq<u8>, index: int) -> Option<(int, nat)> {
    if stands_at(bytes, index, encode_utf8("ns"@)) {
        Some((encode_utf8("ns"@).len() as int, 1))
    } else if stands_at(bytes, index, encode_utf8("us"@)) {
        Some((encode_utf8("us"@).len() as int, 1_000))
    } else if stands_at(bytes, index, encode_utf8("µs"@)) {
        Some((encode_utf8("µs"@).len() as int, 1_000))
    } else if stands_at(bytes, index, encode_utf8("μs"@)) {
        Some((encode_utf8("μs"@).len() as int, 1_000))
    } else if stands_at(bytes, index, encode_utf8("ms"@)) {
        Some((encode_utf8("ms"@).len() as int, 1_000_000))
    } else if stands_at(bytes, index, encode_utf8("s"@)) {
        Some((encode_utf8("s"@).len() as int, 1_000_000_000))
    } else if stands_at(bytes, index, encode_utf8("m"@)) {
        Some((encode_utf8("m"@).len() as int, 60_000_000_000))
    } else if stands_at(bytes, index, encode_utf8("h"@)) {
        Some((encode_utf8("h"@).len() as int, 3_600_000_000_000))
    } else {
        None
    }
}

/// One number with its unit, read at `index`: the position after it and the
/// nanoseconds it stands for.
pub open spec fn segment_at(bytes: Seq<u8>, index: int) -> Option<(int, nat)> {
    let whole_end = digits_end(bytes, index);
    let pointed = whole_end < bytes.len() && bytes[whole_end] == 0x2e;
    let fraction_start = if pointed {
        whole_end + 1
    } else {
        whole_end
    };
    let fraction_end = if pointed {
        digits_end(bytes, fraction_start)
    } else {
        whole_end
    };
    let whole = bytes.subrange(index, whole_end);
    let fraction = bytes.subrange(fraction_start, fraction_end);
    if whole.len() == 0 && fraction.len() == 0 {
        None
    } else {
        match unit_at(bytes, fraction_end) {
            None => None,
            Some((length, unit)) => {
                let part = if fraction.len() == 0 {
                    0
                } else {
                    let (value, count) = leading_fraction(fraction);
                    fraction_nanos(value, count, unit)
                };
                Some((fraction_end + length, decimal(whole) * unit + part))
            },
        }
    }
}

/// The nanoseconds that the segments from `index` to the end add up to.
pub open spec fn segments_from(bytes: Seq<u8>, index: int) -> Option<nat>
    decreases bytes.len() - index,
{
    if index >= bytes.len() {
        Some(0)
    } else {
        match segment_at(bytes, index) {
            None => None,
            Some((end, nanos)) => if end <= index {
                None
            } else {
                match segments_from(bytes, end) {
                    None => None,
                    Some(rest) => Some(nanos + rest),
                }
            },
        }
    }
}

/// The nanoseconds of a duration, where the text is one and it lies between
/// the shortest and the longest accepted.
pub open spec fn duration_of(text: Seq<char>) -> Option<u64> {
    let bytes = encode_utf8(text);
    let start: int = if bytes.len() > 0 && bytes[0] == 0x2b {
        1
    } else {
        0
    };
    if (bytes.len() > 0 && bytes[0] == 0x2d) || start == bytes.len() {
        None
    } else {
        match segments_from(bytes, start) {
            None => None,
            Some(total) => if MIN_TIMEOUT_NANOS <= total <= MAX_TIMEOUT_NANOS {
                Some(total as u64)
            } else {
                None
            },
        }
    }
}

proof fn lemma_digits_end(bytes: Seq<u8>, index: int)
    requires
        0 <= index <= bytes.len(),
    ensures
        index <= digits_end(bytes, index) <= bytes.len(),
        forall|i: int| index <= i < digits_end(bytes, index) ==> is_digit(#[trigger] bytes[i]),
    decreases bytes.len() - index,
{
    if index < bytes.len() && is_digit(bytes[index]) {
        lemma_digits_end(bytes, index + 1);
    }
}

proof fn lemma_units_are_not_empty(bytes: Seq<u8>, index: int)
    ensures
        unit_at(bytes, index) matches Some((length, unit)) ==> {
            &&& 1 <= length
            &&& index + length <= bytes.len()
            &&& 1 <= unit < MAX_UNIT
        },
{
    reveal_strlit("ns");
    reveal_strlit("us");
    reveal_strlit("µs");
    reveal_strlit("μs");
    reveal_strlit("ms");
    reveal_strlit("s");
    reveal_strlit("m");
    reveal_strlit("h");
}

proof fn lemma_leading_fraction(digits: Seq<u8>)
    ensures
        leading_fraction(digits).0 <= MAX_FRACTION,
        leading_fraction(digits).1 <= digits.len(),
    decreases digits.len(),
{
    if digits.len() > 0 {
        lemma_leading_fraction(digits.drop_last());
    }
}

/// The position after the digits that start at `index`.
fn skip_digits(bytes: &[u8], index: usize) -> (end: usize)
    requires
        index <= bytes.len(),
    ensures
        end == digits_end(bytes@, index as int),
        index <= end <= bytes.len(),
{
    let mut end = index;
    while end < bytes.len() && 0x30 <= bytes[end] && bytes[end] <= 0x39
        invariant
            index <= end <= bytes.len(),
            digits_end(bytes@, index as int) == digits_end(bytes@, end as int),
        decreases bytes.len() - end,
    {
        end = end + 1;
    }
    end
}

/// The number that ASCII digits stand for, unless it exceeds 128 bits.
pub fn parse_ascii_integer(digits: &[u8]) -> (value: Option<u128>)
    requires
        forall|i: int| 0 <= i < digits.len() ==> 0x30 <= #[trigger] digits@[i],
    ensures
        match value {
            Some(number) => number == decimal(digits@),
            None => decimal(digits@) > u128::MAX,
        },
{
    let mut value: u128 = 0;
    let mut index: usize = 0;
    while index < digits.len()
        invariant
            forall|i: int| 0 <= i < digits.len() ==> 0x30 <= #[trigger] digits@[i],
            index <= digits.len(),
            value == decimal(digits@.take(index as int)),
        decreases digits.len() - index,
    {
        proof {
            assert(digits@.take(index + 1).drop_last() =~= digits@.take(index as int));
            assert(0x30 <= digits@[index as int]);
            lemma_decimal_grows(digits@, index + 1);
        }
        let digit = (digits[index] - 0x30) as u128;
        match value.checked_mul(10) {
            None => return None,
            Some(shifted) => match shifted.checked_add(digit) {
                None => return None,
                Some(next) => value = next,
            },
        }
        index = index + 1;
    }
    assert(digits@.take(digits@.len() as int) =~= digits@);
    Some(value)
}

proof fn lemma_decimal_grows(digits: Seq<u8>, count: int)
    requires
        0 <= count <= digits.len(),
    ensures
        decimal(digits.take(count)) <= decimal(digits),
    decreases digits.len(),
{
    if count < digits.len() {
        lemma_decimal_grows(digits.drop_last(), count);
        assert(digits.drop_last().take(count) =~= digits.take(count));
    } else {
        assert(digits.take(count) =~= digits);
    }
}

/// The value of the leading digits that stay within the largest fraction, and
/// how many they are.
pub fn parse_ascii_fraction(digits: &[u8]) -> (fraction: (u64, usize))
    requires
        forall|i: int| 0 <= i < digits.len() ==> 0x30 <= #[trigger] digits@[i],
    ensures
        fraction.0 == leading_fraction(digits@).0,
        fraction.1 == leading_fraction(digits@).1,
{
    let mut value: u64 = 0;
    let mut count: usize = 0;
    let mut index: usize = 0;
    while index < digits.len()
        invariant
            forall|i: int| 0 <= i < digits.len() ==> 0x30 <= #[trigger] digits@[i],
            count <= index <= digits.len(),
            value <= MAX_FRACTION,
            value == leading_fraction(digits@.take(index as int)).0,
            count == leading_fraction(digits@.take(index as int)).1,
        decreases digits.len() - index,
    {
        assert(digits@.take(index + 1).drop_last() =~= digits@.take(index as int));
        assert(0x30 <= digits@[index as int]);
        if count == index {
            let next = value as u128 * 10 + (digits[index] - 0x30) as u128;
            if next <= MAX_FRACTION as u128 {
                value = next as u64;
                count = count + 1;
            }
        }
        index = index + 1;
    }
    assert(digits@.take(digits@.len() as int) =~= digits@);
    (value, count)
}

/// The unit suffix at `index`: its length in bytes and its nanoseconds.
fn find_unit(bytes: &[u8], index: usize) -> (unit: Option<(usize, u128)>)
    ensures
        match unit {
            None => unit_at(bytes@, index as int) is None,
            Some((length, nanos)) => {
                &&& unit_at(bytes@, index as int) == Some((length as int, nanos as nat))
                &&& 1 <= length
                &&& index + length <= bytes.len()
                &&& 1 <= nanos < MAX_UNIT
            },
        },
{
    proof {
        lemma_units_are_not_empty(bytes@, index as int);
    }
    if is_at(bytes, index, "ns".as_bytes()) {
        Some(("ns".as_bytes().len(), 1))
    } else if is_at(bytes, index, "us".as_bytes()) {
        Some(("us".as_bytes().len(), 1_000))
    } else if is_at(bytes, index, "µs".as_bytes()) {
        Some(("µs".as_bytes().len(), 1_000))
    } else if is_at(bytes, index, "μs".as_bytes()) {
        Some(("μs".as_bytes().len(), 1_000))
    } else if is_at(bytes, index, "ms".as_bytes()) {
        Some(("ms".as_bytes().len(), 1_000_000))
    } else if is_at(bytes, index, "s".as_bytes()) {
        Some(("s".as_bytes().len(), 1_000_000_000))
    } else if is_at(bytes, index, "m".as_bytes()) {
        Some(("m".as_bytes().len(), 60_000_000_000))
    } else if is_at(bytes, index, "h".as_bytes()) {
        Some(("h".as_bytes().len(), 3_600_000_000_000))
    } else {
        None
    }
}

/// One number with its unit, read at `index`. `Err` tells a number that does
/// not fit in 128 bits of nanoseconds from text that is no number.
fn read_segment(bytes: &[u8], index: usize) -> (segment: Result<(usize, u128), bool>)
    requires
        index < bytes.len(),
    ensures
        match segment {
            Ok((end, nanos)) => {
                &&& segment_at(bytes@, index as int) == Some((end as int, nanos as nat))
                &&& index < end <= bytes.len()
            },
            Err(true) => segment_at(bytes@, index as int) matches Some((end, nanos)) && nanos
                > u128::MAX && end > index,
            Err(false) => segment_at(bytes@, index as int) is None,
        },
{
    let whole_end = skip_digits(bytes, index);
    proof {
        lemma_digits_end(bytes@, index as int);
    }
    let pointed = whole_end < bytes.len() && bytes[whole_end] == 0x2e;
    let fraction_start = if pointed {
        whole_end + 1
    } else {
        whole_end
    };
    let fraction_end = if pointed {
        skip_digits(bytes, fraction_start)
    } else {
        whole_end
    };
    if whole_end == index && fraction_end == fraction_start {
        return Err(false);
    }
    match find_unit(bytes, fraction_end) {
        None => Err(false),
        Some((length, unit)) => {
            let whole_digits = vstd::slice::slice_subrange(bytes, index, whole_end);
            let fraction_digits = vstd::slice::slice_subrange(bytes, fraction_start, fraction_end);
            let ghost whole_value = decimal(whole_digits@);
            proof {
                lemma_digits_end(bytes@, fraction_start as int);
                assert forall|i: int| 0 <= i < whole_digits@.len() implies is_digit(
                    #[trigger] whole_digits@[i],
                ) by {
                    assert(is_digit(bytes@[index + i]));
                }
                assert forall|i: int| 0 <= i < fraction_digits@.len() implies is_digit(
                    #[trigger] fraction_digits@[i],
                ) by {
                    assert(is_digit(bytes@[fraction_start + i]));
                }
                lemma_leading_fraction(fraction_digits@);
                assert(whole_value * unit >= whole_value) by (nonlinear_arith)
                    requires
                        unit >= 1,
                ;
            }
            let part = if fraction_digits.len() == 0 {
                0
            } else {
                let (value, count) = parse_ascii_fraction(fraction_digits);
                fractional_nanos(value, count, unit)
            };
            match parse_ascii_integer(whole_digits) {
                None => Err(true),
                Some(whole) => match whole.checked_mul(unit) {
                    None => Err(true),
                    Some(scaled) => match scaled.checked_add(part) {
                        None => Err(true),
                        Some(nanos) => Ok((fraction_end + length, nanos)),
                    },
                },
            }
        },
    }
}

/// The nanoseconds of a duration: an optional plus sign and one or more
/// decimal numbers, each with an optional fraction and a unit, adding up to
/// between one second and ten minutes.
pub fn parse_duration(value: &str) -> (nanos: Option<u64>)
    ensures
        nanos == duration_of(value@),
{
    let bytes = value.as_bytes();
    let mut index: usize = 0;
    if bytes.len() > 0 {
        if bytes[0] == 0x2d {
            return None;
        }
        if bytes[0] == 0x2b {
            index = 1;
        }
    }
    if index == bytes.len() {
        return None;
    }
    let ghost start = index;
    let mut total: u128 = 0;
    while index < bytes.len()
        invariant
            start <= index <= bytes.len(),
            bytes@ == encode_utf8(value@),
            start < bytes.len(),
            start == if bytes@.len() > 0 && bytes@[0] == 0x2b {
                1int
            } else {
                0int
            },
            bytes@[0] != 0x2d,
            match segments_from(bytes@, index as int) {
                None => segments_from(bytes@, start as int) is None,
                Some(rest) => segments_from(bytes@, start as int) == Some((total + rest) as nat),
            },
        decreases bytes.len() - index,
    {
        match read_segment(bytes, index) {
            Err(_) => return None,
            Ok((end, nanos)) => match total.checked_add(nanos) {
                None => return None,
                Some(sum) => {
                    total = sum;
                    index = end;
                },
            },
        }
    }
    if MIN_TIMEOUT_NANOS as u128 <= total && total <= MAX_TIMEOUT_NANOS as u128 {
        Some(total as u64)
    } else {
        None
    }
}

/// Every accepted duration lies between one second and ten minutes.
pub proof fn accepted_durations_are_in_range(text: Seq<char>)
    ensures
        duration_of(text) matches Some(nanos) ==> 1_000_000_000 <= nanos <= 600_000_000_000,
{
}

/// The units, and what they are worth in nanoseconds. Where two could stand,
/// the longer one does.
pub proof fn units_are_worth_their_nanoseconds(bytes: Seq<u8>, index: int)
    ensures
        ({
            let stands = |unit: Seq<char>| stands_at(bytes, index, encode_utf8(unit));
            let worth = |unit: Seq<char>, nanos: nat|
                unit_at(bytes, index) == Some((encode_utf8(unit).len() as int, nanos));
            let short = stands("ns"@) || stands("us"@) || stands("µs"@) || stands("μs"@);
            &&& stands("ns"@) ==> worth("ns"@, 1)
            &&& !stands("ns"@) && stands("us"@) ==> worth("us"@, 1_000)
            &&& !stands("ns"@) && !stands("us"@) && stands("µs"@) ==> worth("µs"@, 1_000)
            &&& !stands("ns"@) && !stands("us"@) && !stands("µs"@) && stands("μs"@) ==> worth(
                "μs"@,
                1_000,
            )
            &&& !short && stands("ms"@) ==> worth("ms"@, 1_000_000)
            &&& !short && !stands("ms"@) && stands("s"@) ==> worth("s"@, 1_000_000_000)
            &&& !short && !stands("ms"@) && !stands("s"@) && stands("m"@) ==> worth(
                "m"@,
                60_000_000_000,
            )
            &&& !short && !stands("ms"@) && !stands("s"@) && !stands("m"@) && stands("h"@)
                ==> worth("h"@, 3_600_000_000_000)
            &&& !short && !stands("ms"@) && !stands("s"@) && !stands("m"@) && !stands("h"@)
                ==> unit_at(bytes, index) is None
        }),
{
}

proof fn lemma_digits_shift(before: Seq<u8>, bytes: Seq<u8>, index: int)
    requires
        0 <= index <= bytes.len(),
    ensures
        digits_end(before + bytes, before.len() + index) == before.len() + digits_end(bytes, index),
    decreases bytes.len() - index,
{
    if index < bytes.len() {
        assert((before + bytes)[before.len() + index] == bytes[index]);
        if is_digit(bytes[index]) {
            lemma_digits_shift(before, bytes, index + 1);
        }
    }
}

proof fn lemma_stands_shift(before: Seq<u8>, bytes: Seq<u8>, index: int, word: Seq<u8>)
    requires
        0 <= index,
    ensures
        stands_at(before + bytes, before.len() + index, word) == stands_at(bytes, index, word),
{
    let all = before + bytes;
    if index + word.len() <= bytes.len() {
        assert(all.subrange(before.len() + index, before.len() + index + word.len())
            =~= bytes.subrange(index, index + word.len()));
    }
}

proof fn lemma_unit_shift(before: Seq<u8>, bytes: Seq<u8>, index: int)
    requires
        0 <= index,
    ensures
        unit_at(before + bytes, before.len() + index) == unit_at(bytes, index),
{
    lemma_stands_shift(before, bytes, index, encode_utf8("ns"@));
    lemma_stands_shift(before, bytes, index, encode_utf8("us"@));
    lemma_stands_shift(before, bytes, index, encode_utf8("µs"@));
    lemma_stands_shift(before, bytes, index, encode_utf8("μs"@));
    lemma_stands_shift(before, bytes, index, encode_utf8("ms"@));
    lemma_stands_shift(before, bytes, index, encode_utf8("s"@));
    lemma_stands_shift(before, bytes, index, encode_utf8("m"@));
    lemma_stands_shift(before, bytes, index, encode_utf8("h"@));
}

proof fn lemma_segment_shift(before: Seq<u8>, bytes: Seq<u8>, index: int)
    requires
        0 <= index < bytes.len(),
    ensures
        segment_at(before + bytes, before.len() + index) == (match segment_at(bytes, index) {
            Some((end, nanos)) => Some((before.len() + end, nanos)),
            None => None,
        }),
{
    let all = before + bytes;
    let shift = before.len() as int;
    lemma_digits_end(bytes, index);
    lemma_digits_shift(before, bytes, index);
    let whole_end = digits_end(bytes, index);
    let pointed = whole_end < bytes.len() && bytes[whole_end] == 0x2e;
    assert(pointed == (shift + whole_end < all.len() && all[shift + whole_end] == 0x2e));
    let start = if pointed {
        whole_end + 1
    } else {
        whole_end
    };
    lemma_digits_end(bytes, start);
    lemma_digits_shift(before, bytes, start);
    let end = if pointed {
        digits_end(bytes, start)
    } else {
        whole_end
    };
    assert(all.subrange(shift + index, shift + whole_end) =~= bytes.subrange(index, whole_end));
    assert(all.subrange(shift + start, shift + end) =~= bytes.subrange(start, end));
    lemma_unit_shift(before, bytes, end);
}

proof fn lemma_segments_shift(before: Seq<u8>, bytes: Seq<u8>, index: int)
    requires
        0 <= index,
    ensures
        segments_from(before + bytes, before.len() + index) == segments_from(bytes, index),
    decreases bytes.len() - index,
{
    if index < bytes.len() {
        lemma_segment_shift(before, bytes, index);
        if let Some((end, _)) = segment_at(bytes, index) {
            if end > index {
                lemma_segments_shift(before, bytes, end);
            }
        }
    }
}

/// A plus sign in front of a duration changes nothing, a minus sign is
/// refused, and so is a duration of nothing.
pub proof fn signs_are_read(text: Seq<char>, signed: Seq<char>)
    requires
        encode_utf8(text).len() > 0,
        encode_utf8(text)[0] != 0x2b,
        encode_utf8(text)[0] != 0x2d,
    ensures
        encode_utf8(signed) == seq![0x2bu8] + encode_utf8(text) ==> duration_of(signed)
            == duration_of(text),
        encode_utf8(signed).len() > 0 && encode_utf8(signed)[0] == 0x2d ==> duration_of(signed)
            is None,
        encode_utf8(signed).len() == 0 ==> duration_of(signed) is None,
        encode_utf8(signed) == seq![0x2bu8] ==> duration_of(signed) is None,
{
    if encode_utf8(signed) == seq![0x2bu8] + encode_utf8(text) {
        lemma_segments_shift(seq![0x2bu8], encode_utf8(text), 0);
    }
}

proof fn lemma_unit_bytes()
    ensures
        encode_utf8("ns"@) == seq![0x6eu8, 0x73u8],
        encode_utf8("us"@) == seq![0x75u8, 0x73u8],
        encode_utf8("µs"@) == seq![0xc2u8, 0xb5u8, 0x73u8],
        encode_utf8("μs"@) == seq![0xceu8, 0xbcu8, 0x73u8],
        encode_utf8("ms"@) == seq![0x6du8, 0x73u8],
        encode_utf8("s"@) == seq![0x73u8],
        encode_utf8("m"@) == seq![0x6du8],
        encode_utf8("h"@) == seq![0x68u8],
{
    lemma_ascii_units();
    lemma_micro_unit("µs"@, 0xb5u32, 0xc2u8, 0xb5u8);
    lemma_micro_unit("μs"@, 0x3bcu32, 0xceu8, 0xbcu8);
}

proof fn lemma_ascii_units()
    ensures
        encode_utf8("ns"@) == seq![0x6eu8, 0x73u8],
        encode_utf8("us"@) == seq![0x75u8, 0x73u8],
        encode_utf8("ms"@) == seq![0x6du8, 0x73u8],
        encode_utf8("s"@) == seq![0x73u8],
        encode_utf8("m"@) == seq![0x6du8],
        encode_utf8("h"@) == seq![0x68u8],
        "µs"@ == seq!['µ', 's'],
        "μs"@ == seq!['μ', 's'],
{
    broadcast use vstd::utf8::is_ascii_chars_encode_utf8;

    reveal_strlit("ns");
    reveal_strlit("us");
    reveal_strlit("ms");
    reveal_strlit("s");
    reveal_strlit("m");
    reveal_strlit("h");
    reveal_strlit("µs");
    reveal_strlit("μs");
    assert(vstd::utf8::is_ascii_chars("ns"@));
    assert(vstd::utf8::is_ascii_chars("us"@));
    assert(vstd::utf8::is_ascii_chars("ms"@));
    assert(vstd::utf8::is_ascii_chars("s"@));
    assert(vstd::utf8::is_ascii_chars("m"@));
    assert(vstd::utf8::is_ascii_chars("h"@));
    assert(encode_utf8("ns"@) =~= seq![0x6eu8, 0x73u8]);
    assert(encode_utf8("us"@) =~= seq![0x75u8, 0x73u8]);
    assert(encode_utf8("ms"@) =~= seq![0x6du8, 0x73u8]);
    assert(encode_utf8("s"@) =~= seq![0x73u8]);
    assert(encode_utf8("m"@) =~= seq![0x6du8]);
    assert(encode_utf8("h"@) =~= seq![0x68u8]);
    assert("µs"@ =~= seq!['µ', 's']);
    assert("μs"@ =~= seq!['μ', 's']);
}

proof fn lemma_micro_unit(unit: Seq<char>, scalar: u32, first: u8, second: u8)
    requires
        unit.len() == 2,
        unit[0] as u32 == scalar,
        unit[1] == 's',
        scalar == 0xb5 && first == 0xc2 && second == 0xb5 || scalar == 0x3bc && first == 0xce
            && second == 0xbc,
    ensures
        encode_utf8(unit) == seq![first, second, 0x73u8],
{
    lemma_ascii_units();
    reveal_strlit("s");
    assert(unit.drop_first() =~= "s"@);
    assert((0xC0u8 | ((scalar >> 6) & 0x1F) as u8) == first) by (bit_vector)
        requires
            scalar == 0xb5 && first == 0xc2 && second == 0xb5 || scalar == 0x3bc && first == 0xce
                && second == 0xbc,
    ;
    assert((0x80u8 | (scalar & 0x3F) as u8) == second) by (bit_vector)
        requires
            scalar == 0xb5 && first == 0xc2 && second == 0xb5 || scalar == 0x3bc && first == 0xce
                && second == 0xbc,
    ;
    assert(vstd::utf8::encode_scalar(scalar) =~= seq![first, second]);
    assert(seq![first, second] + seq![0x73u8] =~= seq![first, second, 0x73u8]);
}

proof fn lemma_stands_extends(bytes: Seq<u8>, more: Seq<u8>, index: int, word: Seq<u8>)
    requires
        0 <= index < bytes.len(),
        more.len() > 0,
        more[0] <= 0x39,
        forall|k: int| 1 <= k < word.len() ==> #[trigger] word[k] > 0x39,
    ensures
        stands_at(bytes + more, index, word) == stands_at(bytes, index, word),
{
    let all = bytes + more;
    if index + word.len() <= bytes.len() {
        assert(all.subrange(index, index + word.len()) =~= bytes.subrange(
            index,
            index + word.len(),
        ));
    } else if stands_at(all, index, word) {
        let k = bytes.len() - index;
        assert(all.subrange(index, index + word.len())[k] == more[0]);
        assert(word[k] > 0x39);
    }
}

proof fn lemma_unit_extends(bytes: Seq<u8>, more: Seq<u8>, index: int)
    requires
        0 <= index < bytes.len(),
        more.len() > 0,
        more[0] <= 0x39,
    ensures
        unit_at(bytes + more, index) == unit_at(bytes, index),
{
    lemma_unit_bytes();
    lemma_stands_extends(bytes, more, index, encode_utf8("ns"@));
    lemma_stands_extends(bytes, more, index, encode_utf8("us"@));
    lemma_stands_extends(bytes, more, index, encode_utf8("µs"@));
    lemma_stands_extends(bytes, more, index, encode_utf8("μs"@));
    lemma_stands_extends(bytes, more, index, encode_utf8("ms"@));
    lemma_stands_extends(bytes, more, index, encode_utf8("s"@));
    lemma_stands_extends(bytes, more, index, encode_utf8("m"@));
    lemma_stands_extends(bytes, more, index, encode_utf8("h"@));
}

proof fn lemma_digits_extend(bytes: Seq<u8>, more: Seq<u8>, index: int)
    requires
        0 <= index <= bytes.len(),
        digits_end(bytes, index) < bytes.len(),
    ensures
        digits_end(bytes + more, index) == digits_end(bytes, index),
    decreases bytes.len() - index,
{
    if index < bytes.len() {
        assert((bytes + more)[index] == bytes[index]);
        if is_digit(bytes[index]) {
            lemma_digits_extend(bytes, more, index + 1);
        }
    }
}

proof fn lemma_segment_extends(bytes: Seq<u8>, more: Seq<u8>, index: int)
    requires
        0 <= index < bytes.len(),
        more.len() > 0,
        more[0] <= 0x39,
        segment_at(bytes, index) is Some,
    ensures
        segment_at(bytes + more, index) == segment_at(bytes, index),
{
    let all = bytes + more;
    lemma_digits_end(bytes, index);
    let whole_end = digits_end(bytes, index);
    let pointed = whole_end < bytes.len() && bytes[whole_end] == 0x2e;
    let start = if pointed {
        whole_end + 1
    } else {
        whole_end
    };
    lemma_digits_end(bytes, start);
    let end = if pointed {
        digits_end(bytes, start)
    } else {
        whole_end
    };
    lemma_units_are_not_empty(bytes, end);
    assert(end < bytes.len());
    lemma_digits_extend(bytes, more, index);
    if pointed {
        lemma_digits_extend(bytes, more, start);
    }
    assert(all[whole_end] == bytes[whole_end]);
    assert(all.subrange(index, whole_end) =~= bytes.subrange(index, whole_end));
    assert(all.subrange(start, end) =~= bytes.subrange(start, end));
    lemma_unit_extends(bytes, more, end);
}

proof fn lemma_segment_begins(bytes: Seq<u8>)
    requires
        bytes.len() > 0,
        segment_at(bytes, 0) is Some,
    ensures
        bytes[0] <= 0x39,
{
    lemma_digits_end(bytes, 0);
}

proof fn lemma_segment_bounds(bytes: Seq<u8>, index: int)
    requires
        0 <= index < bytes.len(),
    ensures
        segment_at(bytes, index) matches Some((end, _)) ==> end <= bytes.len(),
{
    lemma_digits_end(bytes, index);
    let whole_end = digits_end(bytes, index);
    let pointed = whole_end < bytes.len() && bytes[whole_end] == 0x2e;
    if pointed {
        lemma_digits_end(bytes, whole_end + 1);
        lemma_units_are_not_empty(bytes, digits_end(bytes, whole_end + 1));
    } else {
        lemma_units_are_not_empty(bytes, whole_end);
    }
}

proof fn lemma_parts_add_up(first: Seq<u8>, second: Seq<u8>, index: int)
    requires
        0 <= index <= first.len(),
        segments_from(first, index) is Some,
        second.len() > 0,
        second[0] <= 0x39,
        segments_from(second, 0) is Some,
    ensures
        segments_from(first + second, index) == Some(
            segments_from(first, index)->0 + segments_from(second, 0)->0,
        ),
    decreases first.len() - index,
{
    if index == first.len() {
        lemma_segments_shift(first, second, 0);
    } else {
        lemma_segment_extends(first, second, index);
        lemma_segment_bounds(first, index);
        let (end, _) = segment_at(first, index)->0;
        lemma_parts_add_up(first, second, end);
    }
}

/// A duration that is written as two durations, one behind the other, is as
/// long as both together.
pub proof fn parts_add_up(first: Seq<u8>, second: Seq<u8>)
    requires
        segments_from(first, 0) is Some,
        second.len() > 0,
        segments_from(second, 0) is Some,
    ensures
        segments_from(first + second, 0) == Some(
            segments_from(first, 0)->0 + segments_from(second, 0)->0,
        ),
        segments_from(Seq::empty(), 0) == Some(0nat),
{
    lemma_segment_begins(second);
    lemma_parts_add_up(first, second, 0);
}

/// A text without a sign is accepted exactly where its parts add up to between
/// one second and ten minutes, and stands for what they add up to.
pub proof fn duration_is_the_sum_of_its_parts(text: Seq<char>, nanos: u64)
    requires
        encode_utf8(text).len() > 0,
        encode_utf8(text)[0] != 0x2b,
        encode_utf8(text)[0] != 0x2d,
    ensures
        duration_of(text) == Some(nanos) <==> {
            &&& segments_from(encode_utf8(text), 0) == Some(nanos as nat)
            &&& 1_000_000_000 <= nanos <= 600_000_000_000
        },
{
}

/// Digits stand for a number in base ten.
pub proof fn digits_are_decimal(digits: Seq<u8>, digit: u8)
    requires
        0x30 <= digit <= 0x39,
    ensures
        decimal(Seq::empty()) == 0,
        decimal(digits.push(digit)) == 10 * decimal(digits) + (digit - 0x30),
{
    assert(digits.push(digit).drop_last() =~= digits);
}

/// A unit and what it is worth in nanoseconds.
pub open spec fn is_unit(unit: Seq<char>, nanos: nat) -> bool {
    ||| unit == "ns"@ && nanos == 1
    ||| unit == "us"@ && nanos == 1_000
    ||| unit == "µs"@ && nanos == 1_000
    ||| unit == "μs"@ && nanos == 1_000
    ||| unit == "ms"@ && nanos == 1_000_000
    ||| unit == "s"@ && nanos == 1_000_000_000
    ||| unit == "m"@ && nanos == 60_000_000_000
    ||| unit == "h"@ && nanos == 3_600_000_000_000
}

/// All of the bytes are digits.
pub open spec fn all_digits(bytes: Seq<u8>) -> bool {
    forall|i: int| 0 <= i < bytes.len() ==> 0x30 <= #[trigger] bytes[i] <= 0x39
}

proof fn lemma_digits_run(digits: Seq<u8>, rest: Seq<u8>, index: int)
    requires
        0 <= index <= digits.len(),
        all_digits(digits),
        rest.len() > 0,
        !is_digit(rest[0]),
    ensures
        digits_end(digits + rest, index) == digits.len(),
    decreases digits.len() - index,
{
    let all = digits + rest;
    if index < digits.len() {
        assert(all[index] == digits[index]);
        lemma_digits_run(digits, rest, index + 1);
    } else {
        assert(all[index] == rest[0]);
    }
}

proof fn lemma_last_unit(before: Seq<u8>, unit: Seq<char>, nanos: nat)
    requires
        is_unit(unit, nanos),
    ensures
        unit_at(before + encode_utf8(unit), before.len() as int) == Some(
            (encode_utf8(unit).len() as int, nanos),
        ),
        encode_utf8(unit).len() > 0,
        !is_digit(encode_utf8(unit)[0]),
        encode_utf8(unit)[0] != 0x2e,
{
    lemma_unit_bytes();
    let word = encode_utf8(unit);
    lemma_unit_shift(before, word, 0);
    assert(word.subrange(0, word.len() as int) =~= word);
    assert forall|other: Seq<u8>| other.len() > 0 && #[trigger] stands_at(word, 0, other) implies other[0]
        == word[0] && (other.len() > 1 ==> word.len() > 1 && other[1] == word[1]) by {
        assert(word.subrange(0, other.len() as int)[0] == word[0]);
        if other.len() > 1 {
            assert(word.subrange(0, other.len() as int)[1] == word[1]);
        }
    }
}

/// A whole number of units is as many times the unit.
pub proof fn whole_units_are_counted(digits: Seq<u8>, unit: Seq<char>, nanos: nat)
    requires
        digits.len() > 0,
        all_digits(digits),
        is_unit(unit, nanos),
    ensures
        segments_from(digits + encode_utf8(unit), 0) == Some(decimal(digits) * nanos),
{
    let word = encode_utf8(unit);
    let all = digits + word;
    lemma_last_unit(digits, unit, nanos);
    lemma_digits_run(digits, word, 0);
    assert(all[digits.len() as int] == word[0]);
    assert(all.subrange(0, digits.len() as int) =~= digits);
    assert(segment_at(all, 0) == Some((all.len() as int, decimal(digits) * nanos)));
    assert(segments_from(all, all.len() as int) == Some(0nat));
}

/// A fraction of a unit, with or without whole units in front of the point,
/// comes to what the whole units and the fraction come to.
pub proof fn fractions_are_added(
    whole: Seq<u8>,
    fraction: Seq<u8>,
    unit: Seq<char>,
    nanos: nat,
)
    requires
        all_digits(whole),
        all_digits(fraction),
        fraction.len() > 0,
        is_unit(unit, nanos),
    ensures
        segments_from(whole + seq![0x2eu8] + fraction + encode_utf8(unit), 0) == Some(
            decimal(whole) * nanos + fraction_nanos(
                leading_fraction(fraction).0,
                leading_fraction(fraction).1,
                nanos,
            ),
        ),
{
    let word = encode_utf8(unit);
    let pointed = whole + seq![0x2eu8];
    let number = pointed + fraction;
    let all = number + word;
    lemma_last_unit(number, unit, nanos);
    assert(all =~= whole + (seq![0x2eu8] + fraction + word));
    lemma_digits_run(whole, seq![0x2eu8] + fraction + word, 0);
    assert(all[whole.len() as int] == 0x2e);
    assert(all =~= pointed + (fraction + word));
    lemma_digits_shift(pointed, fraction + word, 0);
    lemma_digits_run(fraction, word, 0);
    assert(all.subrange(0, whole.len() as int) =~= whole);
    assert(all.subrange(whole.len() + 1int, number.len() as int) =~= fraction);
    assert(segments_from(all, all.len() as int) == Some(0nat));
}

/// A fraction that fits in 63 bits is read whole.
pub proof fn short_fractions_are_read_whole(digits: Seq<u8>)
    requires
        all_digits(digits),
        decimal(digits) <= 0x7fff_ffff_ffff_ffff,
    ensures
        leading_fraction(digits) == (decimal(digits), digits.len()),
    decreases digits.len(),
{
    if digits.len() > 0 {
        assert(all_digits(digits.drop_last()));
        short_fractions_are_read_whole(digits.drop_last());
    }
}

/// A decimal fraction of a unit that comes to whole nanoseconds comes to
/// exactly those: half a second is 500 000 000 nanoseconds, and so on.
pub proof fn decimal_fractions_are_exact(
    whole: Seq<u8>,
    fraction: Seq<u8>,
    unit: Seq<char>,
    nanos: nat,
    part: nat,
)
    requires
        all_digits(whole),
        all_digits(fraction),
        fraction.len() > 0,
        is_unit(unit, nanos),
        nanos == part * pow(10, fraction.len()),
        pow(10, fraction.len()) < 0x20_0000_0000_0000,
        decimal(fraction) < 0x20_0000_0000_0000,
        decimal(fraction) * part < 0x20_0000_0000_0000,
    ensures
        segments_from(whole + seq![0x2eu8] + fraction + encode_utf8(unit), 0) == Some(
            decimal(whole) * nanos + decimal(fraction) * part,
        ),
{
    fractions_are_added(whole, fraction, unit, nanos);
    short_fractions_are_read_whole(fraction);
    exact_fractions_are_exact(decimal(fraction), fraction.len(), nanos, part);
}

} // verus!
