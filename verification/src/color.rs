//! Colors and bytes as text.
use crate::text::all_hex_digits;
use crate::text::characters;
use crate::text::digit_value;
use crate::text::digits_are_the_usual_ones;
use crate::text::hex_digit;
use crate::text::hex_digit_value;
use crate::text::hex_padded;
use crate::text::hex_value;
use crate::text::joined;
use crate::text::push_hex_padded;
use vstd::prelude::*;

verus! {

/// The text is not a color.
#[derive(Debug, Clone, Copy, PartialEq, Eq)]
pub struct ColorError;

impl ColorError {
    /// Describes the error.
    pub fn message(&self) -> (message: String)
        ensures
            message@ == "color must be six hexadecimal digits (RRGGBB)"@,
    {
        "color must be six hexadecimal digits (RRGGBB)".to_owned()
    }
}

/// The digits of a color: the text without one number sign at its start.
pub open spec fn color_digits(value: Seq<char>) -> Seq<char> {
    if value.len() > 0 && value[0] == '#' {
        value.skip(1)
    } else {
        value
    }
}

/// Whether a text is a color.
pub open spec fn is_color(value: Seq<char>) -> bool {
    color_digits(value).len() == 6 && all_hex_digits(color_digits(value))
}

/// The red, green and blue of a color, each given by two digits.
pub open spec fn color_of(value: Seq<char>) -> Seq<u8> {
    let digits = color_digits(value);
    seq![
        hex_value(digits.subrange(0, 2)) as u8,
        hex_value(digits.subrange(2, 4)) as u8,
        hex_value(digits.subrange(4, 6)) as u8,
    ]
}

proof fn lemma_two_digits(digits: Seq<char>, at: int, high: nat, low: nat)
    requires
        0 <= at,
        at + 2 <= digits.len(),
        hex_digit_value(digits[at]) == Some(high),
        hex_digit_value(digits[at + 1]) == Some(low),
    ensures
        hex_value(digits.subrange(at, at + 2)) == high * 16 + low,
{
    let pair = digits.subrange(at, at + 2);
    assert(pair.drop_last().drop_last() =~= Seq::empty());
    reveal_with_fuel(hex_value, 3);
    assert(pair.last() == digits[at + 1]);
    assert(pair.drop_last().last() == digits[at]);
}

fn color_component(digits: &[char], at: usize) -> (component: Option<u8>)
    requires
        at + 2 <= digits@.len(),
    ensures
        component is Some <==> hex_digit_value(digits@[at as int]) is Some && hex_digit_value(
            digits@[at + 1],
        ) is Some,
        component matches Some(value) ==> value == hex_value(
            digits@.subrange(at as int, at + 2),
        ),
{
    match (digit_value(digits[at]), digit_value(digits[at + 1])) {
        (Some(high), Some(low)) => {
            proof {
                lemma_two_digits(digits@, at as int, high as nat, low as nat);
            }
            Some((high * 16 + low) as u8)
        },
        _ => None,
    }
}

/// Reads a color: six hexadecimal digits, after a number sign or not.
pub fn parse_rgb(value: &str) -> (result: Result<[u8; 3], ColorError>)
    ensures
        result is Ok <==> is_color(value@),
        result matches Ok(rgb) ==> rgb@ == color_of(value@),
{
    let chars: Vec<char> = characters(value);
    let start: usize = if chars.len() > 0 && chars[0] == '#' {
        1
    } else {
        0
    };
    let digits: &[char] = vstd::slice::slice_subrange(chars.as_slice(), start, chars.len());
    assert(digits@ =~= color_digits(value@));
    if digits.len() != 6 {
        return Err(ColorError);
    }
    match (color_component(digits, 0), color_component(digits, 2), color_component(digits, 4)) {
        (Some(red), Some(green), Some(blue)) => {
            let rgb: [u8; 3] = [red, green, blue];
            assert(rgb@ =~= color_of(value@));
            Ok(rgb)
        },
        _ => Err(ColorError),
    }
}

/// The bytes as they are written for the user.
pub open spec fn byte_texts(bytes: Seq<u8>) -> Seq<Seq<char>> {
    bytes.map_values(|byte: u8| hex_padded(byte as nat))
}

/// Writes bytes as pairs of hexadecimal digits with spaces between them.
pub fn format_bytes(bytes: &[u8]) -> (text: String)
    ensures
        text@ == joined(byte_texts(bytes@), " "@),
{
    let ghost parts = byte_texts(bytes@);
    let mut text: String = String::new();
    let mut i: usize = 0;
    assert(joined(parts.take(0), " "@) =~= seq![]);
    while i < bytes.len()
        invariant
            i <= bytes@.len(),
            parts == byte_texts(bytes@),
            text@ == joined(parts.take(i as int), " "@),
        decreases bytes@.len() - i,
    {
        if i > 0 {
            text.append(" ");
        }
        push_hex_padded(&mut text, bytes[i] as u16);
        assert(parts.take(i + 1).drop_last() =~= parts.take(i as int));
        assert(parts.take(i + 1).last() == hex_padded(bytes@[i as int] as nat));
        assert(text@ =~= joined(parts.take(i + 1), " "@));
        i = i + 1;
    }
    assert(parts.take(i as int) =~= parts);
    text
}

/// A digit reads as what it was written for.
pub proof fn digit_reads_back(digit: int)
    requires
        0 <= digit < 16,
    ensures
        hex_digit_value(hex_digit(digit)) == Some(digit as nat),
{
}

proof fn lemma_byte_text(byte: u8)
    ensures
        hex_padded(byte as nat) == seq![
            hex_digit(byte as int / 16),
            hex_digit(byte as int % 16),
        ],
{
    reveal_with_fuel(crate::text::hex_numeral, 2);
    assert(hex_padded(byte as nat) =~= seq![
        hex_digit(byte as int / 16),
        hex_digit(byte as int % 16),
    ]);
}

proof fn lemma_component(text: Seq<char>, at: int, byte: u8)
    requires
        0 <= at,
        at + 2 <= text.len(),
        text[at] == hex_digit(byte as int / 16),
        text[at + 1] == hex_digit(byte as int % 16),
    ensures
        hex_value(text.subrange(at, at + 2)) == byte,
{
    digit_reads_back(byte as int / 16);
    digit_reads_back(byte as int % 16);
    lemma_two_digits(text, at, (byte / 16) as nat, (byte % 16) as nat);
}

/// A color whose components are written like formatted bytes parses back, with
/// a number sign or without.
pub proof fn written_color_parses_back(rgb: Seq<u8>)
    requires
        rgb.len() == 3,
    ensures
        ({
            let text = hex_padded(rgb[0] as nat) + hex_padded(rgb[1] as nat) + hex_padded(
                rgb[2] as nat,
            );
            &&& is_color(text)
            &&& color_of(text) == rgb
            &&& is_color(seq!['#'] + text)
            &&& color_of(seq!['#'] + text) == rgb
        }),
{
    lemma_byte_text(rgb[0]);
    lemma_byte_text(rgb[1]);
    lemma_byte_text(rgb[2]);
    let text = hex_padded(rgb[0] as nat) + hex_padded(rgb[1] as nat) + hex_padded(rgb[2] as nat);
    lemma_component(text, 0, rgb[0]);
    lemma_component(text, 2, rgb[1]);
    lemma_component(text, 4, rgb[2]);
    assert forall|i: int| 0 <= i < 6 implies hex_digit_value(#[trigger] text[i]) is Some by {
        digit_reads_back(rgb[i / 2] as int / 16);
        digit_reads_back(rgb[i / 2] as int % 16);
    }
    assert(text[0] != '#') by {
        digit_reads_back(rgb[0] as int / 16);
    }
    assert(color_of(text) =~= rgb);
    assert((seq!['#'] + text).skip(1) =~= text);
}

/// The character with a hexadecimal digit in upper case.
pub open spec fn upper_case(c: char) -> char {
    if 0x61 <= c as u32 <= 0x66 {
        (c as u32 - 0x20) as char
    } else {
        c
    }
}

/// Whether `other` is `value` with some of its digits in upper case.
pub open spec fn differs_in_case(value: Seq<char>, other: Seq<char>) -> bool {
    &&& other.len() == value.len()
    &&& forall|i: int|
        0 <= i < value.len() ==> (#[trigger] other[i]) == value[i] || other[i] == upper_case(
            value[i],
        )
}

proof fn lemma_upper_case(c: char)
    ensures
        hex_digit_value(upper_case(c)) == hex_digit_value(c),
        upper_case(c) == '#' <==> c == '#',
{
    let code = c as u32;
    if 0x61 <= code <= 0x66 {
        let upper = (code - 0x20) as char;
        assert(upper as u32 == code - 0x20);
    }
}

proof fn lemma_value_in_any_case(value: Seq<char>, other: Seq<char>)
    requires
        differs_in_case(value, other),
    ensures
        hex_value(other) == hex_value(value),
        all_hex_digits(other) == all_hex_digits(value),
    decreases value.len(),
{
    assert forall|i: int| 0 <= i < value.len() implies hex_digit_value(#[trigger] other[i])
        == hex_digit_value(value[i]) by {
        lemma_upper_case(value[i]);
    }
    if all_hex_digits(other) {
        assert forall|i: int| 0 <= i < value.len() implies hex_digit_value(
            #[trigger] value[i],
        ) is Some by {
            assert(hex_digit_value(other[i]) is Some);
        }
    }
    if value.len() > 0 {
        lemma_value_in_any_case(value.drop_last(), other.drop_last());
        assert(other.last() == other[value.len() - 1]);
    }
}

/// Digits may be written in upper case, all of them or some: that changes
/// neither whether a text is a color nor which.
pub proof fn case_does_not_matter(value: Seq<char>, other: Seq<char>)
    requires
        differs_in_case(value, other),
    ensures
        is_color(other) == is_color(value),
        is_color(value) ==> color_of(other) == color_of(value),
{
    if value.len() > 0 {
        lemma_upper_case(value[0]);
        assert(other[0] == value[0] || other[0] == upper_case(value[0]));
    }
    let digits = color_digits(value);
    let others = color_digits(other);
    assert(differs_in_case(digits, others)) by {
        assert forall|i: int| 0 <= i < digits.len() implies (#[trigger] others[i]) == digits[i]
            || others[i] == upper_case(digits[i]) by {
            let at = i + value.len() - digits.len();
            assert(other[at] == value[at] || other[at] == upper_case(value[at]));
        }
    }
    lemma_value_in_any_case(digits, others);
    if digits.len() == 6 {
        lemma_part_in_any_case(digits, others, 0);
        lemma_part_in_any_case(digits, others, 2);
        lemma_part_in_any_case(digits, others, 4);
    }
}

proof fn lemma_part_in_any_case(value: Seq<char>, other: Seq<char>, at: int)
    requires
        differs_in_case(value, other),
        0 <= at,
        at + 2 <= value.len(),
    ensures
        hex_value(other.subrange(at, at + 2)) == hex_value(value.subrange(at, at + 2)),
{
    lemma_value_in_any_case(value.subrange(at, at + 2), other.subrange(at, at + 2));
}

/// A color that is written in upper case parses back, with a number sign or
/// without.
pub proof fn upper_case_color_parses_back(rgb: Seq<u8>)
    requires
        rgb.len() == 3,
    ensures
        ({
            let text = hex_padded(rgb[0] as nat) + hex_padded(rgb[1] as nat) + hex_padded(
                rgb[2] as nat,
            );
            let upper = text.map_values(|c: char| upper_case(c));
            &&& is_color(upper)
            &&& color_of(upper) == rgb
            &&& is_color(seq!['#'] + upper)
            &&& color_of(seq!['#'] + upper) == rgb
        }),
{
    written_color_parses_back(rgb);
    let text = hex_padded(rgb[0] as nat) + hex_padded(rgb[1] as nat) + hex_padded(rgb[2] as nat);
    let upper = text.map_values(|c: char| upper_case(c));
    case_does_not_matter(text, upper);
    case_does_not_matter(seq!['#'] + text, seq!['#'] + upper);
}

/// A text is a color exactly if it is six hexadecimal digits, with one number
/// sign before them or without, and each two of them are one component: the
/// first sixteen times, the second once.
pub proof fn two_digits_make_a_component(value: Seq<char>, digits: Seq<char>)
    requires
        digits.len() == 0 || digits[0] != '#',
        value == digits || value == seq!['#'] + digits,
    ensures
        is_color(value) <==> digits.len() == 6 && forall|i: int|
            0 <= i < 6 ==> hex_digit_value(#[trigger] digits[i]) is Some,
        is_color(value) ==> {
            &&& color_of(value).len() == 3
            &&& forall|c: int|
                0 <= c < 3 ==> #[trigger] color_of(value)[c] == hex_digit_value(
                    digits[c * 2],
                )->Some_0 * 16 + hex_digit_value(digits[c * 2 + 1])->Some_0
        },
        !is_color(seq!['#'] + (seq!['#'] + digits)),
{
    assert((seq!['#'] + digits).skip(1) =~= digits);
    assert(color_digits(value) == digits);
    let twice = seq!['#'] + (seq!['#'] + digits);
    assert(twice.skip(1) =~= seq!['#'] + digits);
    assert(hex_digit_value(twice.skip(1)[0]) is None);
    if is_color(value) {
        assert forall|i: int| 0 <= i < 6 implies hex_digit_value(#[trigger] digits[i]) is Some
            && hex_digit_value(digits[i])->Some_0 < 16 by {}
        lemma_two_digits(
            digits,
            0,
            hex_digit_value(digits[0])->Some_0,
            hex_digit_value(digits[1])->Some_0,
        );
        lemma_two_digits(
            digits,
            2,
            hex_digit_value(digits[2])->Some_0,
            hex_digit_value(digits[3])->Some_0,
        );
        lemma_two_digits(
            digits,
            4,
            hex_digit_value(digits[4])->Some_0,
            hex_digit_value(digits[5])->Some_0,
        );
    }
}

/// Each byte is written with two digits, the one for the sixteens first.
pub proof fn bytes_have_two_digits(bytes: Seq<u8>, i: int)
    requires
        0 <= i < bytes.len(),
    ensures
        byte_texts(bytes).len() == bytes.len(),
        byte_texts(bytes)[i] == seq![
            "0123456789abcdef"@[bytes[i] as int / 16],
            "0123456789abcdef"@[bytes[i] as int % 16],
        ],
{
    lemma_byte_text(bytes[i]);
    digits_are_the_usual_ones(bytes[i] as int / 16);
    digits_are_the_usual_ones(bytes[i] as int % 16);
}

} // verus!
