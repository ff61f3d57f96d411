//! Text: numerals, searching and trimming, with strings modelled as sequences
//! of characters.
use vstd::prelude::*;

verus! {

/// The lower-case hexadecimal digit for `digit`, which is below sixteen.
pub open spec fn hex_digit(digit: int) -> char {
    if digit < 10 {
        (0x30 + digit) as char
    } else {
        (0x57 + digit) as char
    }
}

/// The lower-case hexadecimal numeral of `value`, without leading zeros.
pub open spec fn hex_numeral(value: nat) -> Seq<char>
    decreases value,
{
    if value < 16 {
        seq![hex_digit(value as int)]
    } else {
        hex_numeral(value / 16).push(hex_digit((value % 16) as int))
    }
}

/// `value` in lower-case hexadecimal, padded with a zero to at least two digits.
pub open spec fn hex_padded(value: nat) -> Seq<char> {
    if value < 16 {
        seq!['0', hex_digit(value as int)]
    } else {
        hex_numeral(value)
    }
}

/// The decimal numeral of `value`.
pub open spec fn decimal_numeral(value: nat) -> Seq<char>
    decreases value,
{
    if value < 10 {
        seq![hex_digit(value as int)]
    } else {
        decimal_numeral(value / 10).push(hex_digit((value % 10) as int))
    }
}

/// Appends one hexadecimal digit.
fn push_digit(out: &mut String, digit: u16)
    requires
        digit < 16,
    ensures
        final(out)@ == old(out)@.push(hex_digit(digit as int)),
{
    let digits: &str = "0123456789abcdef";
    proof {
        reveal_strlit("0123456789abcdef");
    }
    let start: usize = digit as usize;
    let one: &str = digits.substring_char(start, start + 1);
    out.append(one);
    assert(one@ == seq![hex_digit(digit as int)]);
    assert(out@ == old(out)@.push(hex_digit(digit as int)));
}

fn push_hex_numeral(out: &mut String, value: u16)
    ensures
        final(out)@ == old(out)@ + hex_numeral(value as nat),
    decreases value,
{
    if value >= 16 {
        push_hex_numeral(out, value / 16);
    }
    push_digit(out, value % 16);
    assert(out@ == old(out)@ + hex_numeral(value as nat));
}

/// Appends `value` in hexadecimal with at least two digits.
pub fn push_hex_padded(out: &mut String, value: u16)
    ensures
        final(out)@ == old(out)@ + hex_padded(value as nat),
{
    if value < 16 {
        push_digit(out, 0);
    }
    push_hex_numeral(out, value);
    assert(out@ == old(out)@ + hex_padded(value as nat));
}

/// Appends the decimal numeral of `value`.
pub fn push_decimal(out: &mut String, value: usize)
    ensures
        final(out)@ == old(out)@ + decimal_numeral(value as nat),
    decreases value,
{
    if value >= 10 {
        push_decimal(out, value / 10);
    }
    push_digit(out, (value % 10) as u16);
    assert(out@ == old(out)@ + decimal_numeral(value as nat));
}

/// The characters of `text` in order.
pub fn characters(text: &str) -> (chars: Vec<char>)
    ensures
        chars@ == text@,
{
    let mut chars: Vec<char> = Vec::new();
    for c in iter: text.chars()
        invariant
            iter.seq() == text@,
            chars@ == text@.take(iter.index()),
    {
        chars.push(c);
    }
    chars
}

/// The length of the part of `text` before the first `mark`, or of all of it.
pub open spec fn length_before(text: Seq<char>, mark: char) -> nat
    decreases text.len(),
{
    if text.len() == 0 || text[0] == mark {
        0
    } else {
        1 + length_before(text.skip(1), mark)
    }
}

pub proof fn lemma_length_before(text: Seq<char>, mark: char, length: int)
    requires
        0 <= length <= text.len(),
        forall|i: int| 0 <= i < length ==> text[i] != mark,
        length < text.len() ==> text[length] == mark,
    ensures
        length_before(text, mark) == length,
    decreases text.len(),
{
    if length > 0 {
        assert forall|i: int| 0 <= i < length - 1 implies text.skip(1)[i] != mark by {
            assert(text.skip(1)[i] == text[i + 1]);
        }
        lemma_length_before(text.skip(1), mark, length - 1);
    }
}

/// Finds the first `mark` in `text`; without one, gives the length of `text`.
pub fn find_mark(text: &[char], mark: char) -> (length: usize)
    ensures
        length == length_before(text@, mark),
        length <= text@.len(),
{
    let mut i: usize = 0;
    while i < text.len() && text[i] != mark
        invariant
            i <= text@.len(),
            forall|k: int| 0 <= k < i ==> text@[k] != mark,
        decreases text@.len() - i,
    {
        i = i + 1;
    }
    proof {
        lemma_length_before(text@, mark, i as int);
    }
    i
}

/// Whether `part` stands in `text` at `start`.
pub open spec fn occurs_at(text: Seq<char>, part: Seq<char>, start: int) -> bool {
    &&& 0 <= start
    &&& start + part.len() <= text.len()
    &&& text.subrange(start, start + part.len()) == part
}

/// Whether `part` stands anywhere in `text`.
pub open spec fn contains_text(text: Seq<char>, part: Seq<char>) -> bool {
    exists|start: int| occurs_at(text, part, start)
}

fn matches_at(text: &[char], part: &[char], start: usize) -> (found: bool)
    requires
        start <= text@.len(),
    ensures
        found == occurs_at(text@, part@, start as int),
{
    if text.len() - start < part.len() {
        return false;
    }
    let length: usize = text.len();
    let mut i: usize = 0;
    while i < part.len()
        invariant
            i <= part@.len(),
            length == text@.len(),
            start + part@.len() <= length,
            forall|k: int| 0 <= k < i ==> text@[start + k] == part@[k],
        decreases part@.len() - i,
    {
        if text[start + i] != part[i] {
            assert(text@.subrange(start as int, start + part@.len())[i as int] != part@[i as int]);
            return false;
        }
        i = i + 1;
    }
    assert(text@.subrange(start as int, start + part@.len()) =~= part@);
    true
}

/// Whether `text` holds `part`.
pub fn contains(text: &str, part: &str) -> (found: bool)
    ensures
        found == contains_text(text@, part@),
{
    let text_chars: Vec<char> = characters(text);
    let part_chars: Vec<char> = characters(part);
    let mut start: usize = 0;
    while start < text_chars.len()
        invariant
            start <= text_chars@.len(),
            text_chars@ == text@,
            part_chars@ == part@,
            forall|k: int| 0 <= k < start ==> !occurs_at(text@, part@, k),
        decreases text_chars@.len() - start,
    {
        if matches_at(text_chars.as_slice(), part_chars.as_slice(), start) {
            return true;
        }
        start = start + 1;
    }
    matches_at(text_chars.as_slice(), part_chars.as_slice(), start)
}

/// Whether `text` starts with `part`.
pub fn starts_with(text: &[char], part: &[char]) -> (found: bool)
    ensures
        found == part@.is_prefix_of(text@),
{
    let found: bool = matches_at(text, part, 0);
    proof {
        if found {
            assert(text@.subrange(0, part@.len() as int) == part@);
        }
    }
    found
}

/// `text` without the characters at its end that satisfy `unwanted`.
pub open spec fn trim_end_matching(text: Seq<char>, unwanted: spec_fn(char) -> bool) -> Seq<char>
    decreases text.len(),
{
    if text.len() > 0 && unwanted(text.last()) {
        trim_end_matching(text.drop_last(), unwanted)
    } else {
        text
    }
}

/// The characters with the Unicode property `White_Space`.
pub open spec fn is_white_space(c: char) -> bool {
    let code = c as u32;
    ||| 0x9 <= code <= 0xd
    ||| code == 0x20
    ||| code == 0x85
    ||| code == 0xa0
    ||| code == 0x1680
    ||| 0x2000 <= code <= 0x200a
    ||| code == 0x2028
    ||| code == 0x2029
    ||| code == 0x202f
    ||| code == 0x205f
    ||| code == 0x3000
}

/// `text` without the white space at its end.
pub open spec fn without_trailing_space(text: Seq<char>) -> Seq<char> {
    trim_end_matching(text, |c: char| is_white_space(c))
}

/// `text` without the NUL characters at its end.
pub open spec fn without_trailing_nul(text: Seq<char>) -> Seq<char> {
    trim_end_matching(text, |c: char| c == '\0')
}

fn white_space(c: char) -> (found: bool)
    ensures
        found == is_white_space(c),
{
    let code: u32 = c as u32;
    (0x9 <= code && code <= 0xd) || code == 0x20 || code == 0x85 || code == 0xa0 || code == 0x1680
        || (0x2000 <= code && code <= 0x200a) || code == 0x2028 || code == 0x2029 || code == 0x202f
        || code == 0x205f || code == 0x3000
}

/// Removes the white space at the end of `text`.
pub fn trim_end(text: &str) -> (trimmed: String)
    ensures
        trimmed@ == without_trailing_space(text@),
{
    let chars: Vec<char> = characters(text);
    let ghost unwanted = |c: char| is_white_space(c);
    let mut end: usize = chars.len();
    assert(text@.take(end as int) == text@);
    while end > 0 && white_space(chars[end - 1])
        invariant
            chars@ == text@,
            end <= text@.len(),
            unwanted == (|c: char| is_white_space(c)),
            trim_end_matching(text@.take(end as int), unwanted) == trim_end_matching(
                text@,
                unwanted,
            ),
        decreases end,
    {
        assert(text@.take(end as int).drop_last() == text@.take(end - 1));
        end = end - 1;
    }
    text.substring_char(0, end).to_owned()
}

/// Removes the NUL characters at the end of `text`.
pub fn trim_end_nul(text: &str) -> (trimmed: String)
    ensures
        trimmed@ == without_trailing_nul(text@),
{
    let chars: Vec<char> = characters(text);
    let ghost unwanted = |c: char| c == '\0';
    let mut end: usize = chars.len();
    assert(text@.take(end as int) == text@);
    while end > 0 && chars[end - 1] == '\0'
        invariant
            chars@ == text@,
            end <= text@.len(),
            unwanted == (|c: char| c == '\0'),
            trim_end_matching(text@.take(end as int), unwanted) == trim_end_matching(
                text@,
                unwanted,
            ),
        decreases end,
    {
        assert(text@.take(end as int).drop_last() == text@.take(end - 1));
        end = end - 1;
    }
    text.substring_char(0, end).to_owned()
}

/// The value of a hexadecimal digit, upper or lower case.
pub open spec fn hex_digit_value(c: char) -> Option<nat> {
    let code = c as u32;
    if 0x30 <= code <= 0x39 {
        Some((code - 0x30) as nat)
    } else if 0x41 <= code <= 0x46 {
        Some((code - 0x37) as nat)
    } else if 0x61 <= code <= 0x66 {
        Some((code - 0x57) as nat)
    } else {
        None
    }
}

/// Whether every character of `text` is a hexadecimal digit.
pub open spec fn all_hex_digits(text: Seq<char>) -> bool {
    forall|i: int| 0 <= i < text.len() ==> hex_digit_value(#[trigger] text[i]) is Some
}

/// The number that the hexadecimal digits of `text` stand for.
pub open spec fn hex_value(text: Seq<char>) -> nat
    decreases text.len(),
{
    if text.len() == 0 {
        0
    } else {
        16 * hex_value(text.drop_last()) + hex_digit_value(text.last()).unwrap_or(0)
    }
}

/// The value of one hexadecimal digit.
pub fn digit_value(c: char) -> (value: Option<u16>)
    ensures
        value is Some <==> hex_digit_value(c) is Some,
        value matches Some(v) ==> hex_digit_value(c) == Some(v as nat) && v < 16,
{
    let code: u32 = c as u32;
    if 0x30 <= code && code <= 0x39 {
        Some((code - 0x30) as u16)
    } else if 0x41 <= code && code <= 0x46 {
        Some((code - 0x37) as u16)
    } else if 0x61 <= code && code <= 0x66 {
        Some((code - 0x57) as u16)
    } else {
        None
    }
}

/// The sixteen-bit number that a hexadecimal numeral stands for. One plus sign
/// may stand before the digits.
pub open spec fn hex_word(text: Seq<char>) -> Option<u16> {
    let digits = if text.len() > 1 && text[0] == '+' {
        text.skip(1)
    } else {
        text
    };
    if digits.len() > 0 && all_hex_digits(digits) && hex_value(digits) <= u16::MAX {
        Some(hex_value(digits) as u16)
    } else {
        None
    }
}

proof fn lemma_hex_value_grows(text: Seq<char>, length: int)
    requires
        0 <= length <= text.len(),
    ensures
        hex_value(text.take(length)) <= hex_value(text),
    decreases text.len() - length,
{
    if length == text.len() {
        assert(text.take(length) == text);
    } else {
        lemma_hex_value_grows(text, length + 1);
        assert(text.take(length + 1).drop_last() == text.take(length));
    }
}

/// Reads a sixteen-bit hexadecimal numeral.
pub fn parse_hex_word(text: &[char]) -> (value: Option<u16>)
    ensures
        value == hex_word(text@),
{
    let start: usize = if text.len() > 1 && text[0] == '+' {
        1
    } else {
        0
    };
    let ghost digits = text@.skip(start as int);
    assert(text@.skip(0) == text@);
    if text.len() == 0 {
        return None;
    }
    let mut total: u32 = 0;
    let mut i: usize = start;
    assert(digits.take(0) =~= Seq::empty());
    while i < text.len()
        invariant
            start <= i <= text@.len(),
            start <= 1,
            digits == text@.skip(start as int),
            digits.len() > 0,
            hex_word(text@) == (if all_hex_digits(digits) && hex_value(digits) <= u16::MAX {
                Some(hex_value(digits) as u16)
            } else {
                None
            }),
            all_hex_digits(digits.take(i - start)),
            total == hex_value(digits.take(i - start)),
            total <= u16::MAX,
        decreases text@.len() - i,
    {
        assert(text@[i as int] == digits[i - start]);
        assert(digits.take(i - start + 1).drop_last() == digits.take(i - start));
        match digit_value(text[i]) {
            Some(digit) => {
                total = total * 16 + digit as u32;
                if total > 0xffff {
                    proof {
                        lemma_hex_value_grows(digits, i - start + 1);
                    }
                    return None;
                }
            },
            None => {
                return None;
            },
        }
        i = i + 1;
    }
    assert(digits.take(i - start) == digits);
    Some(total as u16)
}

/// The texts of `strings`.
pub open spec fn texts(strings: Seq<String>) -> Seq<Seq<char>> {
    strings.map_values(|s: String| s@)
}

/// The parts with `separator` between each two of them.
pub open spec fn joined(parts: Seq<Seq<char>>, separator: Seq<char>) -> Seq<char>
    decreases parts.len(),
{
    if parts.len() == 0 {
        seq![]
    } else if parts.len() == 1 {
        parts[0]
    } else {
        joined(parts.drop_last(), separator) + separator + parts.last()
    }
}

/// Appends the parts with `separator` between each two of them.
pub fn push_joined(out: &mut String, parts: &Vec<String>, separator: &str)
    ensures
        final(out)@ == old(out)@ + joined(texts(parts@), separator@),
{
    let ghost all = texts(parts@);
    let mut i: usize = 0;
    assert(old(out)@ + joined(all.take(0), separator@) =~= old(out)@);
    while i < parts.len()
        invariant
            i <= parts@.len(),
            all == texts(parts@),
            out@ == old(out)@ + joined(all.take(i as int), separator@),
        decreases parts@.len() - i,
    {
        let ghost before = out@;
        if i > 0 {
            out.append(separator);
        }
        out.append(parts[i].as_str());
        assert(all.take(i + 1).drop_last() =~= all.take(i as int));
        assert(all.take(i + 1).last() == parts@[i as int]@);
        assert(out@ =~= old(out)@ + joined(all.take(i + 1), separator@));
        i = i + 1;
    }
    assert(all.take(i as int) =~= all);
}

/// `text` in quotes, with escapes for what does not print.
pub uninterp spec fn quoted(text: Seq<char>) -> Seq<char>;

/// The `Debug` form of a `str`, as `format!` gives it; it depends on the text
/// alone. How characters are escaped is not described further.
#[verifier::external_body]
pub(crate) fn quote(text: &str) -> (form: String)
    ensures
        form@ == quoted(text@),
{
    format!("{:?}", text)
}

/// The digits of numerals are the usual ones, in lower case.
pub proof fn digits_are_the_usual_ones(digit: int)
    requires
        0 <= digit < 16,
    ensures
        hex_digit(digit) == "0123456789abcdef"@[digit],
{
    reveal_strlit("0123456789abcdef");
}

/// A hexadecimal digit is read by its place among the digits, in lower case or
/// in upper case, and no other character is a digit.
pub proof fn digits_are_read_by_their_place(c: char)
    ensures
        hex_digit_value(c) matches Some(digit) ==> digit < 16 && (c
            == "0123456789abcdef"@[digit as int] || c == "0123456789ABCDEF"@[digit as int]),
        hex_digit_value(c) is None ==> forall|digit: int|
            0 <= digit < 16 ==> c != #[trigger] "0123456789abcdef"@[digit] && c
                != "0123456789ABCDEF"@[digit],
{
    reveal_strlit("0123456789abcdef");
    reveal_strlit("0123456789ABCDEF");
    vstd::utf8::char_u32_cast(c, c as u32);
}

/// A hexadecimal numeral of one digit is that digit, and a further digit stands
/// for sixteen times as much and itself. Bytes have two digits, and larger
/// numbers as many as they need.
pub proof fn hexadecimal_numerals_are_positional(value: nat, digit: nat)
    requires
        digit < 16,
    ensures
        hex_numeral(digit) == seq!["0123456789abcdef"@[digit as int]],
        value > 0 ==> hex_numeral(value * 16 + digit) == hex_numeral(value).push(
            "0123456789abcdef"@[digit as int],
        ),
        hex_padded(digit) == seq!['0', "0123456789abcdef"@[digit as int]],
        value > 0 ==> hex_padded(value * 16 + digit) == hex_numeral(value).push(
            "0123456789abcdef"@[digit as int],
        ),
{
    digits_are_the_usual_ones(digit as int);
    if value > 0 {
        let longer = value * 16 + digit;
        assert(longer / 16 == value && longer % 16 == digit);
    }
}

/// A decimal numeral of one digit is that digit, and a further digit stands for
/// ten times as much and itself.
pub proof fn decimal_numerals_are_positional(value: nat, digit: nat)
    requires
        digit < 10,
    ensures
        decimal_numeral(digit) == seq!["0123456789"@[digit as int]],
        value > 0 ==> decimal_numeral(value * 10 + digit) == decimal_numeral(value).push(
            "0123456789"@[digit as int],
        ),
{
    reveal_strlit("0123456789");
    if value > 0 {
        let longer = value * 10 + digit;
        assert(longer / 10 == value && longer % 10 == digit);
    }
}

/// The value of a numeral grows by the place of each digit.
pub proof fn values_are_positional(text: Seq<char>, digit: nat)
    requires
        digit < 16,
    ensures
        hex_value(seq![]) == 0,
        hex_value(text.push("0123456789abcdef"@[digit as int])) == hex_value(text) * 16 + digit,
        hex_value(text.push("0123456789ABCDEF"@[digit as int])) == hex_value(text) * 16 + digit,
{
    reveal_strlit("0123456789abcdef");
    reveal_strlit("0123456789ABCDEF");
    let lower = "0123456789abcdef"@[digit as int];
    let upper = "0123456789ABCDEF"@[digit as int];
    assert(text.push(lower).drop_last() =~= text);
    assert(text.push(upper).drop_last() =~= text);
    assert(hex_digit_value(lower) == Some(digit));
    assert(hex_digit_value(upper) == Some(digit));
}

/// A text is a sixteen-bit number exactly if, apart from one plus sign before
/// them, it is made of hexadecimal digits, at least one, whose value fits; and
/// that value is the number.
pub proof fn words_are_hexadecimal_numbers(digits: Seq<char>)
    requires
        digits.len() == 0 || digits[0] != '+',
    ensures
        hex_word(digits) == hex_word(seq!['+'] + digits),
        hex_word(digits) is Some <==> digits.len() > 0 && hex_value(digits) <= 0xffff && forall|
            i: int,
        |
            0 <= i < digits.len() ==> hex_digit_value(#[trigger] digits[i]) is Some,
        hex_word(digits) matches Some(word) ==> word == hex_value(digits),
        hex_word(seq!['+'] + (seq!['+'] + digits)) is None,
{
    let signed = seq!['+'] + digits;
    let twice = seq!['+'] + signed;
    assert(twice.skip(1) =~= signed);
    assert(!all_hex_digits(signed)) by {
        assert(hex_digit_value(signed[0]) is None);
    }
    if digits.len() > 0 {
        assert(signed.skip(1) =~= digits);
    } else {
        assert(signed =~= seq!['+']);
    }
}

/// One text contains another exactly if it is the other with something before
/// it and something after it, which may be nothing.
pub proof fn containing_is_standing_between(text: Seq<char>, part: Seq<char>)
    ensures
        contains_text(text, part) <==> exists|before: Seq<char>, after: Seq<char>|
            text == #[trigger] (before + part + after),
{
    if contains_text(text, part) {
        let start = choose|start: int| occurs_at(text, part, start);
        let before = text.take(start);
        let after = text.skip(start + part.len());
        assert(text =~= before + part + after);
    }
    if exists|before: Seq<char>, after: Seq<char>| text == #[trigger] (before + part + after) {
        let (before, after) = choose|before: Seq<char>, after: Seq<char>|
            text == #[trigger] (before + part + after);
        let start = before.len() as int;
        assert(text.subrange(start, start + part.len()) =~= part);
        assert(occurs_at(text, part, start));
    }
}

proof fn lemma_trimmed(text: Seq<char>, unwanted: spec_fn(char) -> bool)
    ensures
        ({
            let trimmed = trim_end_matching(text, unwanted);
            &&& trimmed.len() <= text.len()
            &&& trimmed == text.take(trimmed.len() as int)
            &&& trimmed.len() > 0 ==> !unwanted(trimmed.last())
            &&& forall|i: int| trimmed.len() <= i < text.len() ==> unwanted(#[trigger] text[i])
        }),
    decreases text.len(),
{
    if text.len() > 0 && unwanted(text.last()) {
        lemma_trimmed(text.drop_last(), unwanted);
        let trimmed = trim_end_matching(text, unwanted);
        assert(trimmed =~= text.take(trimmed.len() as int));
        assert forall|i: int| trimmed.len() <= i < text.len() implies unwanted(
            #[trigger] text[i],
        ) by {
            if i < text.len() - 1 {
                assert(text.drop_last()[i] == text[i]);
            }
        }
    } else {
        assert(text =~= text.take(text.len() as int));
    }
}

/// Trimming takes away all that is unwanted at the end, and only there: NUL
/// characters of a version, and white space of a name.
pub proof fn trimming_takes_all_at_the_end(text: Seq<char>)
    ensures
        ({
            let trimmed = without_trailing_nul(text);
            &&& trimmed == text.take(trimmed.len() as int)
            &&& trimmed.len() > 0 ==> trimmed.last() != '\0'
            &&& forall|i: int| trimmed.len() <= i < text.len() ==> #[trigger] text[i] == '\0'
        }),
        ({
            let trimmed = without_trailing_space(text);
            &&& trimmed == text.take(trimmed.len() as int)
            &&& trimmed.len() > 0 ==> !is_white_space(trimmed.last())
            &&& forall|i: int|
                trimmed.len() <= i < text.len() ==> is_white_space(#[trigger] text[i])
        }),
{
    lemma_trimmed(text, |c: char| c == '\0');
    lemma_trimmed(text, |c: char| is_white_space(c));
}

/// The white space that can stand in ASCII text: space, tab, line feed, vertical
/// tab, form feed and carriage return. Beyond ASCII it is the rest of the
/// Unicode property.
pub proof fn white_space_is_that_of_unicode(c: char)
    ensures
        c as u32 <= 0x7f ==> (is_white_space(c) <==> c == ' ' || 0x9 <= c as u32 <= 0xd),
        c as u32 > 0x7f ==> (is_white_space(c) <==> c == '\u{85}' || c == '\u{a0}' || c
            == '\u{1680}' || 0x2000 <= c as u32 <= 0x200a || c == '\u{2028}' || c == '\u{2029}'
            || c == '\u{202f}' || c == '\u{205f}' || c == '\u{3000}'),
{
    vstd::utf8::char_u32_cast(c, c as u32);
}

/// Joining puts the separator between each two parts and nowhere else.
pub proof fn joining_separates_the_parts(
    parts: Seq<Seq<char>>,
    part: Seq<char>,
    separator: Seq<char>,
)
    ensures
        joined(seq![], separator) == Seq::<char>::empty(),
        joined(seq![part], separator) == part,
        parts.len() > 0 ==> joined(parts.push(part), separator) == joined(parts, separator)
            + separator + part,
{
    assert(parts.push(part).drop_last() =~= parts);
}

/// The first mark is found: there is none before it, and it is one, unless there
/// is none at all.
pub proof fn first_mark_is_found(text: Seq<char>, mark: char)
    ensures
        length_before(text, mark) <= text.len(),
        forall|i: int| 0 <= i < length_before(text, mark) ==> #[trigger] text[i] != mark,
        length_before(text, mark) < text.len() ==> text[length_before(text, mark) as int] == mark,
    decreases text.len(),
{
    if text.len() > 0 && text[0] != mark {
        first_mark_is_found(text.skip(1), mark);
        assert forall|i: int| 0 <= i < length_before(text, mark) implies #[trigger] text[i]
            != mark by {
            if i > 0 {
                assert(text[i] == text.skip(1)[i - 1]);
            }
        }
    }
}

/// The texts of strings are theirs, one for one.
pub proof fn texts_are_those_of_the_strings(strings: Seq<String>, i: int)
    requires
        0 <= i < strings.len(),
    ensures
        texts(strings).len() == strings.len(),
        texts(strings)[i] == strings[i]@,
{
}

} // verus!
