//! Drawing a diamond of asterisks.

use vstd::prelude::*;
use crate::text::{append_chars, chars_of, string_of};

verus! {

/// The character `c`, `n` times over; nothing where `n` is not positive.
pub open spec fn repeated(c: char, n: int) -> Seq<char> {
    Seq::new(
        if n > 0 {
            n as nat
        } else {
            0
        },
        |i: int| c,
    )
}

/// One line of a diamond: asterisks between equal paddings of spaces, and a
/// line feed.
pub open spec fn line(asterisks: int, padding: int) -> Seq<char> {
    repeated(' ', padding) + repeated('*', asterisks) + repeated(' ', padding) + seq!['\n']
}

/// The number of spaces on each side of line `line_number` of a diamond.
pub open spec fn padding_at(size: int, line_number: int) -> int {
    let midpoint = (size - 1) / 2;
    if line_number >= midpoint {
        line_number - midpoint
    } else {
        midpoint - line_number
    }
}

/// The first `lines` lines of the diamond of this size.
pub open spec fn diamond_lines(size: int, lines: int) -> Seq<char>
    decreases lines,
{
    if lines <= 0 {
        Seq::empty()
    } else {
        diamond_lines(size, lines - 1) + line(
            size - 2 * padding_at(size, lines - 1),
            padding_at(size, lines - 1),
        )
    }
}

fn repeat_char(c: char, n: i32) -> (chars: Vec<char>)
    ensures
        chars@ == repeated(c, n as int),
{
    let mut chars: Vec<char> = Vec::new();
    let mut i: i32 = 0;
    while i < n
        invariant
            0 <= i,
            i <= n || i == 0,
            chars@ == repeated(c, i as int),
        decreases n - i,
    {
        chars.push(c);
        i += 1;
        assert(chars@ =~= repeated(c, i as int));
    }
    assert(chars@ =~= repeated(c, n as int));
    chars
}

/// The character `c`, `n` times over.
pub fn concat_char(c: char, n: i32) -> (text: String)
    ensures
        text@ == repeated(c, n as int),
{
    string_of(&repeat_char(c, n))
}

/// One line of a diamond.
pub fn diamond_line(number_of_asteriks: i32, number_of_padding_spaces: i32) -> (text: String)
    ensures
        text@ == line(number_of_asteriks as int, number_of_padding_spaces as int),
{
    let spaces = concat_char(' ', number_of_padding_spaces);
    let asteriks = concat_char('*', number_of_asteriks);
    let mut chars = chars_of(spaces.as_str());
    append_chars(&mut chars, &chars_of(asteriks.as_str()));
    append_chars(&mut chars, &chars_of(spaces.as_str()));
    chars.push('\n');
    assert(chars@ =~= line(number_of_asteriks as int, number_of_padding_spaces as int));
    string_of(&chars)
}

/// The diamond that is `size` lines high and `size` asterisks wide in the
/// middle. There is one for every positive odd size.
pub fn diamond(size: i32) -> (drawn: Option<String>)
    ensures
        match drawn {
            Some(text) => size > 0 && size % 2 == 1 && text@ == diamond_lines(
                size as int,
                size as int,
            ),
            None => size <= 0 || size % 2 == 0,
        },
{
    if size <= 0 {
        None
    } else if size % 2 == 0 {
        None
    } else {
        let midpoint_index = (size - 1) / 2;
        let mut output: Vec<char> = Vec::new();
        let mut line_number: i32 = 0;
        while line_number < size
            invariant
                0 <= line_number <= size,
                midpoint_index == (size - 1) / 2,
                output@ == diamond_lines(size as int, line_number as int),
            decreases size - line_number,
        {
            let number_of_padding_spaces = if line_number >= midpoint_index {
                line_number - midpoint_index
            } else {
                midpoint_index - line_number
            };
            let number_of_asteriks = size - number_of_padding_spaces * 2;
            let text = diamond_line(number_of_asteriks, number_of_padding_spaces);
            append_chars(&mut output, &chars_of(text.as_str()));
            line_number += 1;
        }
        Some(string_of(&output))
    }
}

} // verus!
