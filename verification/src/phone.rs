//! Formatting ten digits as a telephone number.

use vstd::prelude::*;
use crate::text::{digit_char, digit_to_char, string_of};

verus! {

/// Why a list of numbers is not a telephone number.
#[derive(Debug, Clone, Copy, PartialEq, Eq, Structural)]
pub enum Error {
    /// The list does not hold exactly ten numbers.
    InvalidLength,
    /// One of the ten numbers is larger than nine.
    NotSingleDigitInput,
}

/// Whether every number of the list is a single digit.
pub open spec fn all_single_digits(numbers: Seq<u32>) -> bool {
    forall|i: int| 0 <= i < numbers.len() ==> #[trigger] numbers[i] <= 9
}

/// Ten digits written as `(ddd) ddd-dddd`.
pub open spec fn phone_text(d: Seq<u32>) -> Seq<char> {
    seq![
        '(',
        digit_char(d[0] as nat),
        digit_char(d[1] as nat),
        digit_char(d[2] as nat),
        ')',
        ' ',
        digit_char(d[3] as nat),
        digit_char(d[4] as nat),
        digit_char(d[5] as nat),
        '-',
        digit_char(d[6] as nat),
        digit_char(d[7] as nat),
        digit_char(d[8] as nat),
        digit_char(d[9] as nat),
    ]
}

/// Formats ten single digits as a telephone number. The length is checked
/// before the digits are.
pub fn format_phone_numer(numbers: &[u32]) -> (formatted: Result<String, Error>)
    ensures
        match formatted {
            Ok(s) => numbers@.len() == 10 && all_single_digits(numbers@) && s@ == phone_text(
                numbers@,
            ),
            Err(Error::InvalidLength) => numbers@.len() != 10,
            Err(Error::NotSingleDigitInput) => numbers@.len() == 10 && !all_single_digits(
                numbers@,
            ),
        },
{
    if numbers.len() != 10 {
        return Err(Error::InvalidLength);
    }
    let mut i: usize = 0;
    while i < 10
        invariant
            i <= 10,
            numbers@.len() == 10,
            forall|j: int| 0 <= j < i ==> #[trigger] numbers[j] <= 9,
        decreases 10 - i,
    {
        if numbers[i] > 9 {
            return Err(Error::NotSingleDigitInput);
        }
        i += 1;
    }
    let mut chars: Vec<char> = Vec::new();
    chars.push('(');
    chars.push(digit_to_char(numbers[0] as u8));
    chars.push(digit_to_char(numbers[1] as u8));
    chars.push(digit_to_char(numbers[2] as u8));
    chars.push(')');
    chars.push(' ');
    chars.push(digit_to_char(numbers[3] as u8));
    chars.push(digit_to_char(numbers[4] as u8));
    chars.push(digit_to_char(numbers[5] as u8));
    chars.push('-');
    chars.push(digit_to_char(numbers[6] as u8));
    chars.push(digit_to_char(numbers[7] as u8));
    chars.push(digit_to_char(numbers[8] as u8));
    chars.push(digit_to_char(numbers[9] as u8));
    assert(chars@ =~= phone_text(numbers@));
    Ok(string_of(&chars))
}

} // verus!
