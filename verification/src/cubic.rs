//! Numbers that equal the sum of the cubes of their digits, and a search for
//! them in text.

use vstd::prelude::*;
use crate::text::{char_to_digit, chars_of, digit_value, is_digit};

verus! {

/// The sum of the cubes of the decimal digits of `n`.
pub open spec fn cube_sum(n: nat) -> nat
    decreases n,
{
    if n == 0 {
        0
    } else {
        (n % 10) * (n % 10) * (n % 10) + cube_sum(n / 10)
    }
}

/// Whether `n` has at most three digits and equals the sum of their cubes.
pub open spec fn is_cubic_number(n: nat) -> bool {
    n < 1000 && cube_sum(n) == n
}

/// Tests whether a number of at most three digits equals the sum of the cubes
/// of its digits. Larger numbers never pass.
pub fn is_cubic(n: u32) -> (cubic: bool)
    ensures
        cubic == is_cubic_number(n as nat),
{
    if n >= 1000 {
        return false;
    }
    let mut sum: u32 = 0;
    let mut cur: u32 = n;
    let mut rounds: u32 = 0;
    while cur > 0
        invariant
            sum + cube_sum(cur as nat) == cube_sum(n as nat),
            sum <= rounds * 729,
            rounds <= 3,
            rounds == 0 ==> cur < 1000,
            rounds == 1 ==> cur < 100,
            rounds == 2 ==> cur < 10,
            rounds == 3 ==> cur == 0,
        decreases cur,
    {
        let d: u32 = cur % 10;
        assert(d * d * d <= 729) by (nonlinear_arith)
            requires
                d <= 9,
        ;
        assert(d * d <= 81) by (nonlinear_arith)
            requires
                d <= 9,
        ;
        sum += d * d * d;
        cur /= 10;
        rounds += 1;
    }
    sum == n
}

/// The first position from `start` on that holds a digit.
pub fn find_next_digit(vec: &Vec<char>, start: usize) -> (found: Option<usize>)
    ensures
        match found {
            Some(i) => next_digit(vec@, start as int) == Some(i as int),
            None => next_digit(vec@, start as int).is_none(),
        },
{
    let mut cur: usize = start;
    while cur < vec.len() && char_to_digit(vec[cur]).is_none()
        invariant
            start <= cur,
            next_digit(vec@, start as int) == next_digit(vec@, cur as int),
        decreases vec.len() - cur,
    {
        cur += 1;
    }
    if cur < vec.len() {
        Some(cur)
    } else {
        None
    }
}

/// The first position from `start` on that holds no digit: the end of the run
/// of digits that begins at `start`.
pub fn find_last_digit(vec: &Vec<char>, start: usize) -> (end: usize)
    ensures
        end == run_end(vec@, start as int),
        start <= end,
        end <= vec@.len() || end == start,
{
    let mut cur: usize = start;
    while cur < vec.len() && char_to_digit(vec[cur]).is_some()
        invariant
            start <= cur,
            cur <= vec@.len() || cur == start,
            run_end(vec@, start as int) == run_end(vec@, cur as int),
        decreases vec.len() - cur,
    {
        cur += 1;
    }
    cur
}

/// The first position from `start` on that holds a digit, if there is one.
pub open spec fn next_digit(chars: Seq<char>, start: int) -> Option<int>
    decreases chars.len() - start,
{
    if start < 0 || start >= chars.len() {
        None
    } else if is_digit(chars[start]) {
        Some(start)
    } else {
        next_digit(chars, start + 1)
    }
}

/// The first position from `start` on that holds no digit, or the length of
/// the text if only digits follow.
pub open spec fn run_end(chars: Seq<char>, start: int) -> int
    decreases chars.len() - start,
{
    if start < 0 || start >= chars.len() || !is_digit(chars[start]) {
        start
    } else {
        run_end(chars, start + 1)
    }
}

/// The number that the digits from `lo` up to `hi` write.
pub open spec fn run_value(chars: Seq<char>, lo: int, hi: int) -> nat
    decreases hi - lo,
{
    if hi <= lo {
        0
    } else {
        run_value(chars, lo, hi - 1) * 10 + digit_value(chars[hi - 1]).unwrap()
    }
}

/// A run of digits ends no earlier than it starts.
pub proof fn lemma_run_end_after(chars: Seq<char>, start: int)
    ensures
        start <= run_end(chars, start),
        start <= chars.len() ==> run_end(chars, start) <= chars.len(),
    decreases chars.len() - start,
{
    if !(start < 0 || start >= chars.len() || !is_digit(chars[start])) {
        lemma_run_end_after(chars, start + 1);
    }
}

/// The first digit is found no earlier than the search starts.
pub proof fn lemma_next_digit_after(chars: Seq<char>, start: int)
    ensures
        match next_digit(chars, start) {
            Some(i) => start <= i < chars.len() && is_digit(chars[i]),
            None => true,
        },
    decreases chars.len() - start,
{
    if !(start < 0 || start >= chars.len()) && !is_digit(chars[start]) {
        lemma_next_digit_after(chars, start + 1);
    }
}

/// The cubic numbers among the numbers that the text writes from `start` on,
/// in the order in which they stand. A number is a longest run of digits.
pub open spec fn cubics_from(chars: Seq<char>, start: int) -> Seq<u32>
    decreases chars.len() + 1 - start,
    via cubics_from_decreases
{
    match next_digit(chars, start) {
        None => Seq::empty(),
        Some(first) => {
            let end = run_end(chars, first);
            let number = run_value(chars, first, end);
            let rest = cubics_from(chars, end + 1);
            if is_cubic_number(number) {
                seq![number as u32] + rest
            } else {
                rest
            }
        },
    }
}

#[via_fn]
proof fn cubics_from_decreases(chars: Seq<char>, start: int) {
    lemma_next_digit_after(chars, start);
    if next_digit(chars, start) is Some {
        lemma_run_end_after(chars, next_digit(chars, start).unwrap());
    }
}

/// The number that the digits from `lo` up to `hi` write, or 1000 where that
/// number is 1000 or more.
fn run_number(chars: &Vec<char>, lo: usize, hi: usize) -> (number: u32)
    requires
        lo <= hi <= chars@.len(),
        forall|j: int| lo <= j < hi ==> is_digit(#[trigger] chars@[j]),
    ensures
        number == if run_value(chars@, lo as int, hi as int) < 1000 {
            run_value(chars@, lo as int, hi as int)
        } else {
            1000
        },
{
    let mut number: u32 = 0;
    let mut i: usize = lo;
    while i < hi
        invariant
            lo <= i <= hi <= chars@.len(),
            forall|j: int| lo <= j < hi ==> is_digit(#[trigger] chars@[j]),
            number == if run_value(chars@, lo as int, i as int) < 1000 {
                run_value(chars@, lo as int, i as int)
            } else {
                1000
            },
        decreases hi - i,
    {
        let d: u32 = match char_to_digit(chars[i]) {
            Some(d) => d as u32,
            None => 0,
        };
        number = number * 10 + d;
        if number > 1000 {
            number = 1000;
        }
        i += 1;
    }
    number
}

/// Every position of a run of digits holds a digit.
pub proof fn lemma_run_holds_digits(chars: Seq<char>, start: int, j: int)
    requires
        0 <= start <= j < run_end(chars, start),
    ensures
        j < chars.len(),
        is_digit(chars[j]),
    decreases chars.len() - start,
{
    if !(start >= chars.len() || !is_digit(chars[start])) {
        if j > start {
            lemma_run_holds_digits(chars, start + 1, j);
        }
    }
}

/// Finds the cubic numbers that a text writes, in the order in which they
/// stand. A number is a longest run of decimal digits.
pub fn find_cubics(s: &str) -> (cubics: Vec<u32>)
    ensures
        cubics@ == cubics_from(s@, 0),
{
    let chars = chars_of(s);
    let mut cubics: Vec<u32> = Vec::new();
    let mut next_digit_index = find_next_digit(&chars, 0);
    let ghost mut from: int = 0;
    while next_digit_index.is_some()
        invariant
            chars@ == s@,
            match next_digit_index {
                Some(i) => next_digit(chars@, from) == Some(i as int),
                None => next_digit(chars@, from).is_none(),
            },
            cubics@ + cubics_from(chars@, from) == cubics_from(chars@, 0),
        decreases
                match next_digit_index {
                    Some(i) => chars@.len() - i,
                    None => 0,
                },
    {
        let start = next_digit_index.unwrap();
        let end = find_last_digit(&chars, start);
        proof {
            lemma_next_digit_after(chars@, from);
            assert forall|j: int| start <= j < end implies is_digit(#[trigger] chars@[j]) by {
                lemma_run_holds_digits(chars@, start as int, j);
            }
            lemma_run_end_after(chars@, start + 1);
            assert(end > start);
        }
        let num = run_number(&chars, start, end);
        let ghost before = cubics@;
        if is_cubic(num) {
            cubics.push(num);
        }
        proof {
            let rest = cubics_from(chars@, end + 1);
            assert(cubics@ + rest =~= before + cubics_from(chars@, from));
            from = end + 1;
        }
        if end >= chars.len() {
            next_digit_index = None;
        } else {
            next_digit_index = find_next_digit(&chars, end + 1);
            proof {
                lemma_next_digit_after(chars@, end + 1);
            }
        }
    }
    assert(cubics_from(chars@, from) =~= Seq::empty());
    assert(cubics@ + Seq::<u32>::empty() =~= cubics@);
    cubics
}

/// The cubic numbers below `bound`, in increasing order.
pub open spec fn cubics_below(bound: nat) -> Seq<u32>
    decreases bound,
{
    if bound == 0 {
        Seq::empty()
    } else if is_cubic_number((bound - 1) as nat) {
        cubics_below((bound - 1) as nat).push((bound - 1) as u32)
    } else {
        cubics_below((bound - 1) as nat)
    }
}

/// All cubic numbers, in increasing order.
pub fn all_cubics() -> (cubics: Vec<u32>)
    ensures
        cubics@ == cubics_below(1000),
{
    let mut cubics: Vec<u32> = Vec::new();
    let mut x: u32 = 0;
    while x < 1000
        invariant
            x <= 1000,
            cubics@ == cubics_below(x as nat),
        decreases 1000 - x,
    {
        if is_cubic(x) {
            cubics.push(x);
        }
        x += 1;
    }
    cubics
}

} // verus!
