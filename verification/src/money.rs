//! Amounts of money as whole numbers of hundredths: reading them from decimal
//! numerals and writing them with two decimal places.

use vstd::prelude::*;
use crate::text::{
    all_digits,
    append_chars,
    char_to_digit,
    decimal,
    decimal_chars,
    digit_char,
    digit_to_char,
    digit_value,
    digits_value,
    is_digit,
    lemma_digits_value_grows,
};

verus! {

/// The position of the first decimal point of a text, or the length of the
/// text where it has none.
pub open spec fn point_of(s: Seq<char>) -> int
    decreases s.len(),
{
    if s.len() == 0 {
        0
    } else if s[0] == '.' {
        0
    } else {
        1 + point_of(s.skip(1))
    }
}

/// The digits before the decimal point.
pub open spec fn whole_part(s: Seq<char>) -> Seq<char> {
    s.take(point_of(s))
}

/// The digits after the decimal point; none where there is no point.
pub open spec fn fraction_part(s: Seq<char>) -> Seq<char> {
    if point_of(s) < s.len() {
        s.skip(point_of(s) + 1)
    } else {
        Seq::empty()
    }
}

/// The digit at a position of a text of digits, or zero beyond its end.
pub open spec fn digit_at(s: Seq<char>, i: int) -> nat {
    if 0 <= i < s.len() {
        digit_value(s[i]).unwrap()
    } else {
        0
    }
}

/// Whether a text is a decimal numeral: digits, with at most one decimal
/// point among them or at either end, and at least one digit.
pub open spec fn is_numeral(s: Seq<char>) -> bool {
    &&& all_digits(whole_part(s))
    &&& all_digits(fraction_part(s))
    &&& whole_part(s).len() + fraction_part(s).len() >= 1
}

/// The number of hundredths that a decimal numeral writes, to the nearest
/// hundredth; a half counts up.
pub open spec fn hundredths(s: Seq<char>) -> nat {
    let fraction = fraction_part(s);
    digits_value(whole_part(s)) * 100 + digit_at(fraction, 0) * 10 + digit_at(fraction, 1) + (if digit_at(
        fraction,
        2,
    ) >= 5 {
        1nat
    } else {
        0nat
    })
}

/// The amount that a text writes in hundredths: a decimal numeral with its
/// decimal point, no larger than a 32-bit number of hundredths.
pub open spec fn amount_of(s: Seq<char>) -> Option<u32> {
    if is_numeral(s) && point_of(s) < s.len() && hundredths(s) <= u32::MAX {
        Some(hundredths(s) as u32)
    } else {
        None
    }
}

/// The balance that a text writes in hundredths: a decimal numeral, with or
/// without a decimal point, after an optional sign, no larger on either side
/// of zero than a 32-bit number of hundredths.
pub open spec fn balance_of(s: Seq<char>) -> Option<i64> {
    let signed = s.len() > 0 && (s[0] == '-' || s[0] == '+');
    let numeral = if signed {
        s.skip(1)
    } else {
        s
    };
    if is_numeral(numeral) && hundredths(numeral) <= u32::MAX {
        if s[0] == '-' {
            Some((-(hundredths(numeral) as int)) as i64)
        } else {
            Some(hundredths(numeral) as i64)
        }
    } else {
        None
    }
}

/// An amount of hundredths written with two decimal places, and a minus sign
/// where it is below zero.
pub open spec fn money_text(value: int) -> Seq<char> {
    let size = if value < 0 {
        (-value) as nat
    } else {
        value as nat
    };
    let unsigned = decimal(size / 100) + seq!['.', digit_char(size / 10 % 10), digit_char(size % 10)];
    if value < 0 {
        seq!['-'] + unsigned
    } else {
        unsigned
    }
}

/// Writes an amount of hundredths with two decimal places.
pub fn write_money(value: i128) -> (text: Vec<char>)
    requires
        value > i128::MIN,
    ensures
        text@ == money_text(value as int),
{
    let size: u128 = if value < 0 {
        (-value) as u128
    } else {
        value as u128
    };
    let mut text: Vec<char> = Vec::new();
    if value < 0 {
        text.push('-');
    }
    let whole = size / 100;
    if whole <= 0xFFFF_FFFF_FFFF_FFFF {
        append_chars(&mut text, &decimal_chars(whole as u64));
    } else {
        append_chars(&mut text, &wide_decimal_chars(whole));
    }
    text.push('.');
    text.push(digit_to_char((size / 10 % 10) as u8));
    text.push(digit_to_char((size % 10) as u8));
    assert(text@ =~= money_text(value as int));
    text
}

fn wide_decimal_chars(n: u128) -> (digits: Vec<char>)
    ensures
        digits@ == decimal(n as nat),
    decreases n,
{
    if n < 10 {
        let mut digits: Vec<char> = Vec::new();
        digits.push(digit_to_char(n as u8));
        digits
    } else {
        let mut digits = wide_decimal_chars(n / 10);
        digits.push(digit_to_char((n % 10) as u8));
        digits
    }
}

fn find_point(chars: &Vec<char>, from: usize) -> (point: usize)
    requires
        from <= chars@.len(),
    ensures
        from <= point <= chars@.len(),
        point - from == point_of(chars@.skip(from as int)),
{
    let mut point: usize = from;
    while point < chars.len() && chars[point] != '.'
        invariant
            from <= point <= chars@.len(),
            point_of(chars@.skip(from as int)) == (point - from) + point_of(
                chars@.skip(point as int),
            ),
        decreases chars.len() - point,
    {
        assert(chars@.skip(point as int)[0] == chars@[point as int]);
        assert(chars@.skip(point as int).skip(1) =~= chars@.skip(point + 1));
        point += 1;
    }
    proof {
        if point < chars.len() {
            assert(chars@.skip(point as int)[0] == chars@[point as int]);
        }
    }
    point
}

fn digit_or_zero(chars: &Vec<char>, i: usize, s: Ghost<Seq<char>>, base: Ghost<int>) -> (d: u64)
    requires
        0 <= base@ <= i,
        base@ <= chars@.len(),
        s@ == chars@.skip(base@),
        all_digits(s@),
    ensures
        d == digit_at(s@, i - base@),
        d <= 9,
{
    if i < chars.len() {
        assert(s@[i - base@] == chars@[i as int]);
        assert(is_digit(s@[i - base@]));
        match char_to_digit(chars[i]) {
            Some(d) => d as u64,
            None => 0,
        }
    } else {
        0
    }
}

/// Reads the number of hundredths that the text from position `from` on
/// writes, where it is a decimal numeral of at most a 32-bit number of
/// hundredths; the second answer tells whether it has a decimal point.
#[verifier::loop_isolation(false)]
pub fn read_hundredths(chars: &Vec<char>, from: usize) -> (read: Option<(u32, bool)>)
    requires
        from <= chars@.len(),
    ensures
        match read {
            Some((value, pointed)) => {
                &&& is_numeral(chars@.skip(from as int))
                &&& hundredths(chars@.skip(from as int)) == value
                &&& pointed == (point_of(chars@.skip(from as int)) < chars@.len() - from)
            },
            None => !is_numeral(chars@.skip(from as int)) || hundredths(chars@.skip(from as int))
                > u32::MAX,
        },
{
    let ghost s = chars@.skip(from as int);
    let point = find_point(chars, from);
    let ghost whole = whole_part(s);
    let ghost fraction = fraction_part(s);
    assert(whole =~= chars@.subrange(from as int, point as int));
    let mut value: u64 = 0;
    let mut i: usize = from;
    let mut large = false;
    assert(whole.take(0) =~= Seq::empty());
    while i < point
        invariant
            from <= i <= point <= chars@.len(),
            whole == chars@.subrange(from as int, point as int),
            all_digits(whole.take(i - from)),
            !large ==> value == digits_value(whole.take(i - from)),
            !large ==> value <= u32::MAX,
            large ==> (all_digits(whole) ==> digits_value(whole) > u32::MAX / 100 + 1),
        decreases point - i,
    {
        let ghost next = whole.take(i - from + 1);
        assert(next.drop_last() =~= whole.take(i - from));
        assert(next.last() == chars@[i as int]);
        match char_to_digit(chars[i]) {
            None => {
                assert(!is_digit(whole[i - from]));
                return None;
            },
            Some(d) => {
                assert(all_digits(next)) by {
                    assert forall|j: int| 0 <= j < next.len() implies is_digit(
                        #[trigger] next[j],
                    ) by {
                        if j < next.len() - 1 {
                            assert(next[j] == whole.take(i - from)[j]);
                        }
                    }
                }
                if !large {
                    value = value * 10 + d as u64;
                    if value > 0xFFFF_FFFF {
                        large = true;
                        proof {
                            if all_digits(whole) {
                                lemma_digits_value_grows(whole, i - from + 1);
                            }
                        }
                    }
                }
            },
        }
        i += 1;
    }
    assert(whole.take(point - from) =~= whole);
    let pointed = point < chars.len();
    let start: usize = if pointed {
        point + 1
    } else {
        point
    };
    assert(fraction =~= chars@.skip(start as int));
    let mut k: usize = start;
    while k < chars.len()
        invariant
            start <= k <= chars@.len(),
            fraction == chars@.skip(start as int),
            forall|j: int| 0 <= j < k - start ==> is_digit(#[trigger] fraction[j]),
        decreases chars.len() - k,
    {
        assert(fraction[k - start] == chars@[k as int]);
        if char_to_digit(chars[k]).is_none() {
            return None;
        }
        k += 1;
    }
    assert(all_digits(fraction));
    if (point - from) + (chars.len() - start) == 0 {
        return None;
    }
    if large {
        return None;
    }
    let tenths = digit_or_zero(chars, start, Ghost(fraction), Ghost(start as int));
    let hundredth = if start < chars.len() {
        digit_or_zero(chars, start + 1, Ghost(fraction), Ghost(start as int))
    } else {
        0
    };
    let third = if start < chars.len() && start + 1 < chars.len() {
        digit_or_zero(chars, start + 2, Ghost(fraction), Ghost(start as int))
    } else {
        0
    };
    let total: u64 = value * 100 + tenths * 10 + hundredth + (if third >= 5 {
        1
    } else {
        0
    });
    if total > 0xFFFF_FFFF {
        None
    } else {
        Some((total as u32, pointed))
    }
}

} // verus!
