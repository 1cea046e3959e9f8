use vstd::prelude::*;

use crate::outside::push_char;
use vstd::string::StringSliceAdditionalSpecFns;
use vstd::utf8::{encode_utf8, is_ascii_chars, is_ascii_chars_encode_utf8};

verus! {

/// ASCII whitespace as `u8::is_ascii_whitespace` defines it: space, tab, line feed,
/// form feed, and carriage return.
pub open spec fn is_ascii_whitespace_byte(b: u8) -> bool {
    b == 0x20 || b == 0x09 || b == 0x0a || b == 0x0c || b == 0x0d
}

/// The value of an ASCII hexadecimal digit, either case.
pub open spec fn hex_digit_value(b: u8) -> Option<u8> {
    if 0x30 <= b <= 0x39 {
        Some((b - 0x30) as u8)
    } else if 0x61 <= b <= 0x66 {
        Some((b - 0x61 + 10) as u8)
    } else if 0x41 <= b <= 0x46 {
        Some((b - 0x41 + 10) as u8)
    } else {
        None
    }
}

/// The bytes of `text` with ASCII whitespace removed.
pub open spec fn strip_ascii_whitespace(text: Seq<u8>) -> Seq<u8>
    decreases text.len(),
{
    if text.len() == 0 {
        Seq::empty()
    } else if is_ascii_whitespace_byte(text.last()) {
        strip_ascii_whitespace(text.drop_last())
    } else {
        strip_ascii_whitespace(text.drop_last()).push(text.last())
    }
}

pub open spec fn all_hex_digits(digits: Seq<u8>) -> bool {
    forall|i: int| 0 <= i < digits.len() ==> #[trigger] hex_digit_value(digits[i]) is Some
}

/// Pairs of hex digits read as bytes, high digit first.
pub open spec fn decode_pairs(digits: Seq<u8>) -> Seq<u8> {
    Seq::new(
        digits.len() / 2,
        |i: int|
            (hex_digit_value(digits[2 * i])->0 * 16 + hex_digit_value(digits[2 * i + 1])->0) as u8,
    )
}

/// Why hex text was rejected.
#[derive(Debug, Clone, Copy, PartialEq, Eq, Structural)]
pub enum HexError {
    OddDigitCount,
    InvalidDigit,
}

/// What reading `text` as hex gives: ASCII whitespace is ignored; an odd number of
/// remaining digits, or a character that is not a hex digit, is rejected.
pub open spec fn decode_hex_spec(text: Seq<u8>) -> Result<Seq<u8>, HexError> {
    let digits = strip_ascii_whitespace(text);
    if digits.len() % 2 != 0 {
        Err(HexError::OddDigitCount)
    } else if !all_hex_digits(digits) {
        Err(HexError::InvalidDigit)
    } else {
        Ok(decode_pairs(digits))
    }
}

fn is_ascii_whitespace(b: u8) -> (result: bool)
    ensures
        result == is_ascii_whitespace_byte(b),
{
    b == 0x20 || b == 0x09 || b == 0x0a || b == 0x0c || b == 0x0d
}

fn hex_value(b: u8) -> (value: Option<u8>)
    ensures
        value == hex_digit_value(b),
        value matches Some(v) ==> v < 16,
{
    if 0x30 <= b && b <= 0x39 {
        Some(b - 0x30)
    } else if 0x61 <= b && b <= 0x66 {
        Some(b - 0x61 + 10)
    } else if 0x41 <= b && b <= 0x46 {
        Some(b - 0x41 + 10)
    } else {
        None
    }
}

/// Reads hex text as raw bytes.
pub fn decode_hex(text: &str) -> (result: Result<Vec<u8>, HexError>)
    ensures
        match result {
            Ok(bytes) => decode_hex_spec(text.spec_bytes()) == Ok::<Seq<u8>, HexError>(bytes@),
            Err(error) => decode_hex_spec(text.spec_bytes()) == Err::<Seq<u8>, HexError>(error),
        },
{
    let raw = text.as_bytes();
    let ghost input = raw@;
    let mut digits: Vec<u8> = Vec::new();
    let mut i: usize = 0;
    while i < raw.len()
        invariant
            input == raw@,
            i <= input.len(),
            digits@ == strip_ascii_whitespace(input.take(i as int)),
            input == text.spec_bytes(),
        decreases input.len() - i,
    {
        proof {
            assert(input.take(i + 1).drop_last() =~= input.take(i as int));
            assert(input.take(i + 1).last() == input[i as int]);
        }
        if !is_ascii_whitespace(raw[i]) {
            digits.push(raw[i]);
        }
        i = i + 1;
    }
    assert(input.take(i as int) =~= input);
    if digits.len() % 2 != 0 {
        return Err(HexError::OddDigitCount);
    }
    let mut bytes: Vec<u8> = Vec::new();
    let mut k: usize = 0;
    let half = digits.len() / 2;
    while k < half
        invariant
            half == digits@.len() / 2,
            digits@.len() % 2 == 0,
            k <= half,
            forall|j: int| 0 <= j < 2 * k ==> #[trigger] hex_digit_value(digits@[j]) is Some,
            digits@ == strip_ascii_whitespace(text.spec_bytes()),
            bytes@ =~= decode_pairs(digits@).take(k as int),
        decreases half - k,
    {
        let high = hex_value(digits[2 * k]);
        let low = hex_value(digits[2 * k + 1]);
        match (high, low) {
            (Some(h), Some(l)) => {
                bytes.push(h * 16 + l);
                k = k + 1;
                assert(bytes@ =~= decode_pairs(digits@).take(k as int));
            },
            _ => {
                proof {
                    if high is None {
                        assert(hex_digit_value(digits@[2 * k as int]) is None);
                    } else {
                        assert(hex_digit_value(digits@[2 * k + 1]) is None);
                    }
                    assert(!all_hex_digits(digits@));
                    assert(digits@ == strip_ascii_whitespace(text.spec_bytes()));
                }
                return Err(HexError::InvalidDigit);
            },
        }
    }
    assert(all_hex_digits(digits@)) by {
        assert forall|j: int| 0 <= j < digits@.len() implies #[trigger] hex_digit_value(digits@[j]) is Some by {
            assert(j < 2 * k);
        }
    }
    assert(decode_pairs(digits@).take(k as int) =~= decode_pairs(digits@));
    Ok(bytes)
}

/// The lowercase hex digit for a value below 16.
pub open spec fn lower_hex_char(nibble: int) -> char {
    if nibble < 10 {
        ((nibble + 0x30) as u8) as char
    } else {
        ((nibble - 10 + 0x61) as u8) as char
    }
}

/// The uppercase hex digit for a value below 16.
pub open spec fn upper_hex_char(nibble: int) -> char {
    if nibble < 10 {
        ((nibble + 0x30) as u8) as char
    } else {
        ((nibble - 10 + 0x41) as u8) as char
    }
}

/// Lowercase hex, two digits per byte, no separators.
pub open spec fn encode_hex_spec(bytes: Seq<u8>) -> Seq<char> {
    Seq::new(
        2 * bytes.len(),
        |i: int|
            if i % 2 == 0 {
                lower_hex_char((bytes[i / 2] / 16) as int)
            } else {
                lower_hex_char((bytes[i / 2] % 16) as int)
            },
    )
}

/// Uppercase hex pairs separated by single spaces.
pub open spec fn spaced_hex_spec(bytes: Seq<u8>) -> Seq<char>
    decreases bytes.len(),
{
    if bytes.len() == 0 {
        Seq::empty()
    } else {
        let pair = seq![upper_hex_char((bytes.last() / 16) as int), upper_hex_char((bytes.last() % 16) as int)];
        if bytes.len() == 1 {
            pair
        } else {
            spaced_hex_spec(bytes.drop_last()) + seq![' '] + pair
        }
    }
}

fn nibble_char(nibble: u8, upper: bool) -> (c: char)
    requires
        nibble < 16,
    ensures
        c == if upper { upper_hex_char(nibble as int) } else { lower_hex_char(nibble as int) },
{
    if nibble < 10 {
        (nibble + 0x30) as char
    } else if upper {
        (nibble - 10 + 0x41) as char
    } else {
        (nibble - 10 + 0x61) as char
    }
}

/// Lowercase hex of `bytes`, two digits per byte.
pub fn encode_hex(bytes: &[u8]) -> (text: String)
    ensures
        text@ == encode_hex_spec(bytes@),
{
    let mut text = String::new();
    let mut i: usize = 0;
    while i < bytes.len()
        invariant
            i <= bytes@.len(),
            text@ =~= encode_hex_spec(bytes@.take(i as int)),
        decreases bytes@.len() - i,
    {
        let b = bytes[i];
        push_char(&mut text, nibble_char(b / 16, false));
        push_char(&mut text, nibble_char(b % 16, false));
        i = i + 1;
        assert(text@ =~= encode_hex_spec(bytes@.take(i as int)));
    }
    assert(bytes@.take(i as int) =~= bytes@);
    text
}

/// Uppercase hex pairs of `bytes`, separated by single spaces.
pub fn spaced_hex(bytes: &[u8]) -> (text: String)
    ensures
        text@ == spaced_hex_spec(bytes@),
{
    let mut text = String::new();
    let mut i: usize = 0;
    while i < bytes.len()
        invariant
            i <= bytes@.len(),
            text@ =~= spaced_hex_spec(bytes@.take(i as int)),
        decreases bytes@.len() - i,
    {
        let b = bytes[i];
        proof {
            assert(bytes@.take(i + 1).drop_last() =~= bytes@.take(i as int));
        }
        if i > 0 {
            push_char(&mut text, ' ');
        }
        push_char(&mut text, nibble_char(b / 16, true));
        push_char(&mut text, nibble_char(b % 16, true));
        i = i + 1;
        assert(text@ =~= spaced_hex_spec(bytes@.take(i as int)));
    }
    assert(bytes@.take(i as int) =~= bytes@);
    text
}


proof fn lemma_strip_nothing(text: Seq<u8>)
    requires
        forall|i: int| 0 <= i < text.len() ==> !is_ascii_whitespace_byte(#[trigger] text[i]),
    ensures
        strip_ascii_whitespace(text) == text,
    decreases text.len(),
{
    if text.len() > 0 {
        assert(!is_ascii_whitespace_byte(text[text.len() - 1]));
        lemma_strip_nothing(text.drop_last());
        assert(text.drop_last().push(text.last()) =~= text);
    }
}

proof fn lemma_lower_hex_char(nibble: int)
    requires
        0 <= nibble < 16,
    ensures
        '\0' <= lower_hex_char(nibble) <= '\u{7f}',
        hex_digit_value(lower_hex_char(nibble) as u8) == Some(nibble as u8),
        !is_ascii_whitespace_byte(lower_hex_char(nibble) as u8),
{
    let c = lower_hex_char(nibble);
    if nibble < 10 {
        let b = (nibble + 0x30) as u8;
        assert((b as char) as u8 == b);
    } else {
        let b = (nibble - 10 + 0x61) as u8;
        assert((b as char) as u8 == b);
    }
}

proof fn lemma_upper_hex_char(nibble: int)
    requires
        0 <= nibble < 16,
    ensures
        '\0' <= upper_hex_char(nibble) <= '\u{7f}',
        hex_digit_value(upper_hex_char(nibble) as u8) == Some(nibble as u8),
{
    if nibble < 10 {
        let b = (nibble + 0x30) as u8;
        assert((b as char) as u8 == b);
    } else {
        let b = (nibble - 10 + 0x41) as u8;
        assert((b as char) as u8 == b);
    }
}

/// Characters `3i` and `3i + 1` of `text` are ASCII hex digits that read as byte `i` of
/// `bytes`, high digit first, and a space follows them unless the byte is the last.
pub open spec fn shows_byte_at(text: Seq<char>, bytes: Seq<u8>, i: int) -> bool {
    &&& '\0' <= text[3 * i] <= '\u{7f}'
    &&& '\0' <= text[3 * i + 1] <= '\u{7f}'
    &&& hex_digit_value(text[3 * i] as u8) matches Some(high)
    &&& hex_digit_value(text[3 * i + 1] as u8) matches Some(low)
    &&& high * 16 + low == bytes[i]
    &&& i < bytes.len() - 1 ==> text[3 * i + 2] == ' '
}

/// Spaced hex shows each byte as two hex digits, high digit first, and puts one space
/// between neighbouring bytes and nowhere else.
pub proof fn lemma_spaced_hex_reads_back(bytes: Seq<u8>)
    ensures
        bytes.len() == 0 ==> spaced_hex_spec(bytes).len() == 0,
        bytes.len() > 0 ==> spaced_hex_spec(bytes).len() == 3 * bytes.len() - 1,
        forall|i: int| 0 <= i < bytes.len() ==> #[trigger] shows_byte_at(spaced_hex_spec(bytes), bytes, i),
    decreases bytes.len(),
{
    if bytes.len() > 0 {
        let n = bytes.len() as int;
        let b = bytes.last();
        lemma_upper_hex_char((b / 16) as int);
        lemma_upper_hex_char((b % 16) as int);
        assert((b / 16) * 16 + b % 16 == b);
        let front = bytes.drop_last();
        lemma_spaced_hex_reads_back(front);
        let text = spaced_hex_spec(bytes);
        let earlier = spaced_hex_spec(front);
        assert forall|i: int| 0 <= i < bytes.len() implies #[trigger] shows_byte_at(text, bytes, i) by {
            if i < n - 1 {
                assert(bytes[i] == front[i]);
                assert(shows_byte_at(earlier, front, i));
                assert(text[3 * i] == earlier[3 * i]);
                assert(text[3 * i + 1] == earlier[3 * i + 1]);
                if i < n - 2 {
                    assert(text[3 * i + 2] == earlier[3 * i + 2]);
                } else {
                    assert(text[3 * i + 2] == ' ');
                }
            } else {
                if n > 1 {
                    assert(text[3 * i] == upper_hex_char((b / 16) as int));
                    assert(text[3 * i + 1] == upper_hex_char((b % 16) as int));
                }
            }
        }
    }
}

/// Hex written by `encode_hex` reads back as the same bytes.
pub proof fn lemma_hex_round_trip(bytes: Seq<u8>)
    ensures
        decode_hex_spec(encode_utf8(encode_hex_spec(bytes))) == Ok::<Seq<u8>, HexError>(bytes),
{
    let chars = encode_hex_spec(bytes);
    assert forall|i: int| 0 <= i < chars.len() implies {
        &&& '\0' <= #[trigger] chars[i] <= '\u{7f}'
        &&& hex_digit_value(chars[i] as u8) == Some(
            (if i % 2 == 0 {
                bytes[i / 2] / 16
            } else {
                bytes[i / 2] % 16
            }) as u8,
        )
        &&& !is_ascii_whitespace_byte(chars[i] as u8)
    } by {
        if i % 2 == 0 {
            lemma_lower_hex_char((bytes[i / 2] / 16) as int);
        } else {
            lemma_lower_hex_char((bytes[i / 2] % 16) as int);
        }
    }
    assert(is_ascii_chars(chars));
    is_ascii_chars_encode_utf8(chars);
    let encoded = encode_utf8(chars);
    assert forall|i: int| 0 <= i < encoded.len() implies !is_ascii_whitespace_byte(
        #[trigger] encoded[i],
    ) by {
        assert(chars[i] as u8 == encoded[i]);
    }
    lemma_strip_nothing(encoded);
    assert(encoded.len() == 2 * bytes.len());
    assert forall|i: int| 0 <= i < encoded.len() implies #[trigger] hex_digit_value(encoded[i]) is Some by {
        assert(chars[i] as u8 == encoded[i]);
    }
    assert forall|i: int| 0 <= i < bytes.len() implies #[trigger] decode_pairs(encoded)[i] == bytes[i] by {
        assert(chars[2 * i] as u8 == encoded[2 * i]);
        assert(chars[2 * i + 1] as u8 == encoded[2 * i + 1]);
        assert((2 * i) % 2 == 0);
        assert((2 * i + 1) % 2 == 1);
        assert((2 * i) / 2 == i);
        assert((2 * i + 1) / 2 == i);
        let b = bytes[i];
        assert((b / 16) * 16 + b % 16 == b);
    }
    assert(decode_pairs(encoded) =~= bytes);
}

} // verus!
