//! Small texts and positions that the panels show: numbers in decimal,
//! dates, and where a text goes in a line.

use crate::archive::Date;
use crate::ui::graphemes::string_push;
use crate::ui::input::Rect;
use vstd::prelude::*;

verus! {

/// The character of a decimal digit.
pub open spec fn digit_char(digit: int) -> char {
    (('0' as int) + digit) as char
}

/// A number in decimal, without leading zeros.
pub open spec fn decimal(n: nat) -> Seq<char>
    decreases n,
{
    if n < 10 {
        seq![digit_char(n as int)]
    } else {
        decimal(n / 10).push(digit_char((n % 10) as int))
    }
}

/// A number below 100 in two decimal digits, a longer one as it is.
pub open spec fn two_digits(n: nat) -> Seq<char> {
    if n < 10 {
        seq!['0'] + decimal(n)
    } else {
        decimal(n)
    }
}

/// A date as `year-month-day hour:minute`, month to minute in two digits.
pub open spec fn date_line(date: Date) -> Seq<char> {
    decimal(date.year as nat) + seq!['-'] + two_digits(date.month as nat) + seq!['-']
        + two_digits(date.day as nat) + seq![' '] + two_digits(date.hour as nat) + seq![':']
        + two_digits(date.minute as nat)
}

/// The position of a line among the lines of a directory, as `position/count`
/// with the first line at position 1.
pub open spec fn selection_line(selected: usize, count: usize) -> Seq<char> {
    decimal((1 + selected) as nat) + seq!['/'] + decimal(count as nat)
}

/// A progress in percent as a text, with the percent sign.
pub open spec fn percent_line(progress: u8) -> Seq<char> {
    decimal(progress as nat) + seq!['%']
}

/// The character of a decimal digit.
pub fn digit_of(digit: u8) -> (c: char)
    requires
        digit < 10,
    ensures
        c == digit_char(digit as int),
{
    (48u8 + digit) as char
}

/// Appends a number in decimal to a text.
pub fn push_decimal(text: &mut String, n: u128)
    ensures
        final(text)@ == old(text)@ + decimal(n as nat),
    decreases n,
{
    if n < 10 {
        string_push(text, digit_of(n as u8));
        assert(old(text)@.push(digit_char(n as int)) == old(text)@ + decimal(n as nat));
    } else {
        push_decimal(text, n / 10);
        string_push(text, digit_of((n % 10) as u8));
        assert((old(text)@ + decimal((n / 10) as nat)).push(digit_char((n % 10) as int)) == old(
            text,
        )@ + decimal(n as nat));
    }
}

/// Appends a number in at least two decimal digits to a text.
pub fn push_two_digits(text: &mut String, n: u8)
    ensures
        final(text)@ == old(text)@ + two_digits(n as nat),
{
    if n < 10 {
        string_push(text, '0');
        push_decimal(text, n as u128);
        assert(old(text)@.push('0') + decimal(n as nat) == old(text)@ + (seq!['0'] + decimal(
            n as nat,
        )));
    } else {
        push_decimal(text, n as u128);
    }
}

/// A number in decimal.
pub fn decimal_text(n: u128) -> (text: String)
    ensures
        text@ == decimal(n as nat),
{
    let mut text = String::new();
    push_decimal(&mut text, n);
    assert(Seq::<char>::empty() + decimal(n as nat) == decimal(n as nat));
    text
}

/// The text of a date.
pub fn date_text(date: &Date) -> (text: String)
    ensures
        text@ == date_line(*date),
{
    let mut text = String::new();
    push_decimal(&mut text, date.year as u128);
    string_push(&mut text, '-');
    push_two_digits(&mut text, date.month);
    string_push(&mut text, '-');
    push_two_digits(&mut text, date.day);
    string_push(&mut text, ' ');
    push_two_digits(&mut text, date.hour);
    string_push(&mut text, ':');
    push_two_digits(&mut text, date.minute);
    assert(text@ == date_line(*date)) by {
        let year = decimal(date.year as nat);
        let rest = seq!['-'] + two_digits(date.month as nat) + seq!['-'] + two_digits(
            date.day as nat,
        ) + seq![' '] + two_digits(date.hour as nat) + seq![':'] + two_digits(
            date.minute as nat,
        );
        assert(text@ =~= year + rest);
        assert(date_line(*date) =~= year + rest);
    }
    text
}

/// The text of the position of a line among the lines of a directory.
pub fn selection_text(selected: usize, count: usize) -> (text: String)
    ensures
        text@ == selection_line(selected, count),
{
    let mut text = String::new();
    push_decimal(&mut text, 1 + selected as u128);
    string_push(&mut text, '/');
    push_decimal(&mut text, count as u128);
    assert(text@ =~= selection_line(selected, count));
    text
}

/// The text of a progress in percent.
pub fn percent_text(progress: u8) -> (text: String)
    ensures
        text@ == percent_line(progress),
{
    let mut text = String::new();
    push_decimal(&mut text, progress as u128);
    string_push(&mut text, '%');
    assert(text@ =~= percent_line(progress));
    text
}

/// How a text is placed in a line.
#[derive(Debug, Copy, Clone, PartialEq, Eq, Structural)]
pub enum Alignment {
    Left,
    Center,
    Right,
}

/// Where a text of `item_len` columns begins in a line of `total_len`
/// columns: at the start, around the middle, or so that it ends with the
/// line. A text that is too long begins at the start.
pub fn alignment_offset(alignment: Alignment, total_len: u16, item_len: u16) -> (offset: u16)
    ensures
        offset == match alignment {
            Alignment::Left => 0,
            Alignment::Center => if total_len / 2 >= item_len / 2 {
                total_len / 2 - item_len / 2
            } else {
                0
            },
            Alignment::Right => if total_len >= item_len {
                total_len - item_len
            } else {
                0
            },
        },
{
    match alignment {
        Alignment::Left => 0,
        Alignment::Center => (total_len / 2).saturating_sub(item_len / 2),
        Alignment::Right => total_len.saturating_sub(item_len),
    }
}

/// A rectangle without `padding` columns on its left and on its right.
pub fn pad_rect_horiz(rect: Rect, padding: u16) -> (padded: Rect)
    requires
        rect.x + padding <= u16::MAX,
        padding * 2 <= u16::MAX,
    ensures
        padded == (Rect {
            x: (rect.x + padding) as u16,
            width: if rect.width >= padding * 2 {
                (rect.width - padding * 2) as u16
            } else {
                0
            },
            ..rect
        }),
{
    Rect { x: rect.x + padding, width: rect.width.saturating_sub(padding * 2), ..rect }
}

/// A rectangle without `padding` columns on its left.
pub fn pad_rect_left(rect: Rect, padding: u16) -> (padded: Rect)
    requires
        rect.x + padding <= u16::MAX,
    ensures
        padded == (Rect {
            x: (rect.x + padding) as u16,
            width: if rect.width >= padding {
                (rect.width - padding) as u16
            } else {
                0
            },
            ..rect
        }),
{
    Rect { x: rect.x + padding, width: rect.width.saturating_sub(padding), ..rect }
}

/// The upper-case letter of a lower-case letter of the alphabet: the
/// character 32 places before the one that the lowest eight bits of `ch`
/// stand for. Where these bits stand for less than 32, there is none.
pub fn alpha_upper(ch: char) -> (upper: char)
    requires
        (ch as int) % 256 >= 32,
    ensures
        upper as int == (ch as int) % 256 - 32,
        'a' <= ch <= 'z' ==> 'A' <= upper <= 'Z',
{
    let low = ((ch as u32) % 256) as u8;
    (low - 32) as char
}

} // verus!
