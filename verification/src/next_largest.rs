//! The next larger number that a swap of two neighbouring digits gives.

use vstd::prelude::*;
use crate::text::{
    all_digits,
    char_to_digit,
    decimal,
    decimal_chars,
    digit_value,
    digits_value,
    is_digit,
    lemma_decimal_digits,
    number_of,
};

verus! {

/// Whether the digit at position `i` is smaller than the digit after it.
pub open spec fn rises_at(digits: Seq<char>, i: int) -> bool {
    &&& 0 <= i
    &&& i + 1 < digits.len()
    &&& digit_value(digits[i]).unwrap() < digit_value(digits[i + 1]).unwrap()
}

/// Whether `i` is the last position at which a digit is smaller than the
/// digit after it.
pub open spec fn last_rise_at(digits: Seq<char>, i: int) -> bool {
    &&& rises_at(digits, i)
    &&& forall|j: int| i < j ==> !#[trigger] rises_at(digits, j)
}

/// The numeral with the digits at positions `i` and `i + 1` exchanged.
pub open spec fn swapped(digits: Seq<char>, i: int) -> Seq<char> {
    digits.update(i, digits[i + 1]).update(i + 1, digits[i])
}

/// The number that `n` becomes when the last digit that is smaller than its
/// right neighbour changes places with that neighbour; `None` where the
/// digits of `n` never rise.
pub open spec fn next_larger(n: nat) -> Option<nat> {
    let digits = decimal(n);
    if exists|i: int| last_rise_at(digits, i) {
        Some(digits_value(swapped(digits, choose|i: int| last_rise_at(digits, i))))
    } else {
        None
    }
}

/// There is only one last rise.
pub proof fn lemma_last_rise_is(digits: Seq<char>, i: int)
    requires
        last_rise_at(digits, i),
    ensures
        (choose|k: int| last_rise_at(digits, k)) == i,
{
    let k = choose|k: int| last_rise_at(digits, k);
    assert(last_rise_at(digits, k));
    if k < i {
        assert(!rises_at(digits, i));
    } else if i < k {
        assert(!rises_at(digits, k));
    }
}

/// The next larger number that an exchange of two neighbouring digits of `n`
/// gives: the rightmost digit with a larger right neighbour changes places
/// with it.
pub fn next_largest(n: u32) -> (next: Option<u32>)
    requires
        match next_larger(n as nat) {
            Some(m) => m <= u32::MAX,
            None => true,
        },
    ensures
        match next {
            Some(m) => next_larger(n as nat) == Some(m as nat),
            None => next_larger(n as nat).is_none(),
        },
{
    let mut chars = decimal_chars(n as u64);
    let ghost digits = chars@;
    proof {
        lemma_decimal_digits(n as nat);
    }
    let mut i: usize = chars.len() - 1;
    while i > 0
        invariant
            i < chars.len(),
            chars@ == digits,
            digits == decimal(n as nat),
            all_digits(digits),
            match next_larger(n as nat) {
                Some(m) => m <= u32::MAX,
                None => true,
            },
            forall|j: int| i <= j ==> !#[trigger] rises_at(digits, j),
        decreases i,
    {
        i -= 1;
        let first_char = chars[i];
        let second_char = chars[i + 1];
        let first = match char_to_digit(first_char) {
            Some(d) => d,
            None => 0,
        };
        let second = match char_to_digit(second_char) {
            Some(d) => d,
            None => 0,
        };
        if second > first {
            chars.set(i, second_char);
            chars.set(i + 1, first_char);
            proof {
                assert(rises_at(digits, i as int));
                assert(last_rise_at(digits, i as int));
                lemma_last_rise_is(digits, i as int);
                assert(chars@ =~= swapped(digits, i as int));
                assert forall|j: int| 0 <= j < chars@.len() implies is_digit(
                    #[trigger] chars@[j],
                ) by {
                    if j == i {
                        assert(is_digit(digits[i + 1]));
                    } else if j == i + 1 {
                        assert(is_digit(digits[i as int]));
                    } else {
                        assert(is_digit(digits[j]));
                    }
                }
            }
            return match number_of(&chars) {
                Some(number) => Some(number as u32),
                None => None,
            };
        }
    }
    assert(forall|k: int| !last_rise_at(digits, k));
    None
}

} // verus!
