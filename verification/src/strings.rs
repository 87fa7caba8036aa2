//! Text helpers used by messages and reports: Unicode white space, decimal
//! rendering of integers and joining lists.
use vstd::prelude::*;

verus! {

/// Unicode `White_Space` code points (PropList.txt), the set that
/// `char::is_whitespace` and `str::trim` use.
pub open spec fn white_space(c: char) -> bool {
    let code = c as u32;
    (0x9 <= code <= 0xd) || code == 0x20 || code == 0x85 || code == 0xa0 || code == 0x1680 || (
    0x2000 <= code <= 0x200a) || code == 0x2028 || code == 0x2029 || code == 0x202f || code
        == 0x205f || code == 0x3000
}

/// A string whose trimmed form is empty: every character is white space.
pub open spec fn blank(text: Seq<char>) -> bool {
    forall|i: int| 0 <= i < text.len() ==> white_space(#[trigger] text[i])
}

/// Whether `c` has the Unicode `White_Space` property.
pub fn is_white_space(c: char) -> (result: bool)
    ensures
        result == white_space(c),
{
    let code = c as u32;
    (0x9 <= code && code <= 0xd) || code == 0x20 || code == 0x85 || code == 0xa0 || code == 0x1680
        || (0x2000 <= code && code <= 0x200a) || code == 0x2028 || code == 0x2029 || code
        == 0x202f || code == 0x205f || code == 0x3000
}

/// Whether `text` is empty once leading and trailing white space is trimmed.
pub fn is_blank(text: &str) -> (result: bool)
    ensures
        result == blank(text@),
{
    let length = text.unicode_len();
    let mut index: usize = 0;
    while index < length
        invariant
            length == text@.len(),
            index <= length,
            forall|i: int| 0 <= i < index ==> white_space(#[trigger] text@[i]),
        decreases length - index,
    {
        if !is_white_space(text.get_char(index)) {
            return false;
        }
        index = index + 1;
    }
    true
}

/// The character of a decimal digit.
pub open spec fn digit_char(digit: nat) -> char {
    if digit == 0 {
        '0'
    } else if digit == 1 {
        '1'
    } else if digit == 2 {
        '2'
    } else if digit == 3 {
        '3'
    } else if digit == 4 {
        '4'
    } else if digit == 5 {
        '5'
    } else if digit == 6 {
        '6'
    } else if digit == 7 {
        '7'
    } else if digit == 8 {
        '8'
    } else {
        '9'
    }
}

/// Decimal rendering of a natural number, most significant digit first.
pub open spec fn decimal(value: nat) -> Seq<char>
    decreases value,
{
    if value < 10 {
        seq![digit_char(value)]
    } else {
        decimal(value / 10).push(digit_char(value % 10))
    }
}

fn digit_text(digit: u64) -> (text: &'static str)
    requires
        digit < 10,
    ensures
        text@ == seq![digit_char(digit as nat)],
{
    proof {
        reveal_strlit("0");
        reveal_strlit("1");
        reveal_strlit("2");
        reveal_strlit("3");
        reveal_strlit("4");
        reveal_strlit("5");
        reveal_strlit("6");
        reveal_strlit("7");
        reveal_strlit("8");
        reveal_strlit("9");
    }
    match digit {
        0 => "0",
        1 => "1",
        2 => "2",
        3 => "3",
        4 => "4",
        5 => "5",
        6 => "6",
        7 => "7",
        8 => "8",
        _ => "9",
    }
}

/// Renders `value` in decimal, as `to_string` does for unsigned integers.
pub fn decimal_text(value: u64) -> (text: String)
    ensures
        text@ == decimal(value as nat),
    decreases value,
{
    if value < 10 {
        String::from_str(digit_text(value))
    } else {
        let mut text = decimal_text(value / 10);
        text.append(digit_text(value % 10));
        text
    }
}

/// Renders `value` in decimal, as `to_string` does for `u128`.
pub fn wide_decimal_text(value: u128) -> (text: String)
    ensures
        text@ == decimal(value as nat),
    decreases value,
{
    if value < 10 {
        String::from_str(digit_text(value as u64))
    } else {
        let mut text = wide_decimal_text(value / 10);
        text.append(digit_text((value % 10) as u64));
        text
    }
}

/// Decimal rendering of an integer, with a leading minus sign when negative.
pub open spec fn signed_decimal(value: int) -> Seq<char> {
    if value < 0 {
        "-"@ + decimal((-value) as nat)
    } else {
        decimal(value as nat)
    }
}

/// Renders `value` in decimal, as `to_string` does for signed integers.
pub fn signed_decimal_text(value: i128) -> (text: String)
    ensures
        text@ == signed_decimal(value as int),
{
    if value < 0 {
        let magnitude: u128 = ((-(value + 1)) as u128) + 1;
        let mut text = String::from_str("-");
        let digits = wide_decimal_text(magnitude);
        text.append(digits.as_str());
        text
    } else {
        wide_decimal_text(value as u128)
    }
}

/// An ASCII decimal digit.
pub open spec fn ascii_digit(c: char) -> bool {
    '0' <= c <= '9'
}

/// The value of a run of decimal digits, most significant first.
pub open spec fn digits_value(digits: Seq<char>) -> nat
    decreases digits.len(),
{
    if digits.len() == 0 {
        0
    } else {
        digits_value(digits.drop_last()) * 10 + ((digits.last() as u32) - ('0' as u32)) as nat
    }
}

/// The digits of an unsigned number in `text`, after an optional `+` sign.
pub open spec fn unsigned_digits(text: Seq<char>) -> Seq<char> {
    if text.len() > 0 && text[0] == '+' {
        text.skip(1)
    } else {
        text
    }
}

/// What `str::parse::<u32>` gives for `text`: an optional `+`, then at least
/// one ASCII digit and nothing else, naming a value that fits `u32`.
pub open spec fn parsed_u32(text: Seq<char>) -> Option<u32> {
    let digits = unsigned_digits(text);
    if digits.len() > 0 && (forall|i: int| 0 <= i < digits.len() ==> ascii_digit(#[trigger] digits[i]))
        && digits_value(digits) <= u32::MAX {
        Some(digits_value(digits) as u32)
    } else {
        None
    }
}

/// Parses `text` as `str::parse::<u32>` does.
pub fn parse_u32(text: &str) -> (value: Option<u32>)
    ensures
        value == parsed_u32(text@),
{
    let length = text.unicode_len();
    let start: usize = if length > 0 && text.get_char(0) == '+' { 1 } else { 0 };
    let ghost digits = unsigned_digits(text@);
    assert(digits =~= text@.skip(start as int));
    if start == length {
        return None;
    }
    let limit: u64 = 0x1_0000_0000;
    let mut capped: u64 = 0;
    let mut index: usize = start;
    while index < length
        invariant
            length == text@.len(),
            start <= index <= length,
            digits == text@.skip(start as int),
            digits == unsigned_digits(text@),
            limit == 0x1_0000_0000,
            forall|i: int| 0 <= i < index - start ==> ascii_digit(#[trigger] digits[i]),
            capped == (if digits_value(digits.take(index - start)) >= limit {
                limit as nat
            } else {
                digits_value(digits.take(index - start))
            }),
        decreases length - index,
    {
        let c = text.get_char(index);
        assert(digits[index - start] == c);
        if !('0' <= c && c <= '9') {
            assert(!ascii_digit(digits[index - start]));
            return None;
        }
        let digit = (c as u32 - '0' as u32) as u64;
        assert(digit <= 9);
        let ghost done = digits.take(index - start);
        assert(digits.take(index - start + 1).drop_last() =~= done);
        assert(digits.take(index - start + 1).last() == c);
        proof {
            let whole = digits.take(index - start + 1);
            assert(digits_value(whole) == digits_value(done) * 10 + digit);
        }
        if capped < limit {
            let next = capped * 10 + digit;
            capped = if next >= limit { limit } else { next };
        }
        index = index + 1;
    }
    assert(digits.take(length - start) =~= digits);
    if capped < limit {
        Some(capped as u32)
    } else {
        None
    }
}

/// The elements of `parts` joined by `separator`.
pub open spec fn joined(parts: Seq<Seq<char>>, separator: Seq<char>) -> Seq<char>
    decreases parts.len(),
{
    if parts.len() == 0 {
        Seq::empty()
    } else if parts.len() == 1 {
        parts[0]
    } else {
        joined(parts.drop_last(), separator) + separator + parts.last()
    }
}

/// Joins the strings of `parts` with `separator`, as `[String]::join` does.
pub fn join_texts(parts: &Vec<String>, separator: &str) -> (text: String)
    ensures
        text@ == joined(parts@.map_values(|part: String| part@), separator@),
{
    let ghost views = parts@.map_values(|part: String| part@);
    let mut text = String::new();
    let mut index: usize = 0;
    while index < parts.len()
        invariant
            index <= parts.len(),
            views == parts@.map_values(|part: String| part@),
            text@ == joined(views.take(index as int), separator@),
        decreases parts.len() - index,
    {
        if index != 0 {
            text.append(separator);
        }
        text.append(parts[index].as_str());
        assert(views.take(index + 1).drop_last() =~= views.take(index as int));
        index = index + 1;
    }
    assert(views.take(parts.len() as int) =~= views);
    text
}

} // verus!
