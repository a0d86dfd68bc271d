//! A calculator for sums, differences, products and quotients of whole
//! numbers, written in a line without brackets.

use vstd::prelude::*;
use crate::text::{chars_of, parse_u32, parsed_u32, string_of};

verus! {

/// Why a line could not be calculated.
#[derive(Debug, Clone, Copy, PartialEq, Eq, Structural)]
pub enum CalcError {
    /// What stands where a number is expected is not a number of 32 bits.
    NotANumber,
    /// A number was to be divided by zero.
    DivisionByZero,
    /// A result is below zero or beyond 32 bits.
    OutOfRange,
}

/// Whether the text holds a plus sign.
pub open spec fn has_plus(s: Seq<char>) -> bool {
    exists|i: int| 0 <= i < s.len() && s[i] == '+'
}

/// Tests whether the text holds a plus sign.
pub fn has_any_operands(input: &str) -> (found: bool)
    ensures
        found == has_plus(input@),
{
    let chars = chars_of(input);
    let mut i: usize = 0;
    while i < chars.len()
        invariant
            i <= chars.len(),
            chars@ == input@,
            forall|k: int| 0 <= k < i ==> chars@[k] != '+',
        decreases chars.len() - i,
    {
        if chars[i] == '+' {
            return true;
        }
        i += 1;
    }
    false
}

/// The position of the last `a` or `b` in the text, or -1 where there is
/// none.
pub open spec fn last_of(s: Seq<char>, a: char, b: char) -> int
    decreases s.len(),
{
    if s.len() == 0 {
        -1
    } else if s.last() == a || s.last() == b {
        s.len() - 1
    } else {
        last_of(s.drop_last(), a, b)
    }
}

/// The text without the spaces at its start and at its end.
pub open spec fn unspaced(s: Seq<char>) -> Seq<char>
    decreases s.len(),
{
    if s.len() > 0 && s[0] == ' ' {
        unspaced(s.skip(1))
    } else if s.len() > 0 && s.last() == ' ' {
        unspaced(s.drop_last())
    } else {
        s
    }
}

/// The number that stands in the text, spaces around it aside.
pub open spec fn number(s: Seq<char>) -> Result<nat, CalcError> {
    match parsed_u32(unspaced(s)) {
        Some(n) => Ok(n as nat),
        None => Err(CalcError::NotANumber),
    }
}

/// What the operation `op` makes of two numbers, where the result is a
/// number of 32 bits. A sign that is none of `+`, `-` and `*` divides, and a
/// quotient is rounded down.
pub open spec fn applied(op: char, left: nat, right: nat) -> Result<nat, CalcError> {
    if op != '+' && op != '-' && op != '*' && right == 0 {
        Err(CalcError::DivisionByZero)
    } else {
        let result: int = if op == '+' {
            left as int + right as int
        } else if op == '-' {
            left as int - right as int
        } else if op == '*' {
            left as int * right as int
        } else {
            left as int / right as int
        };
        if 0 <= result <= u32::MAX {
            Ok(result as nat)
        } else {
            Err(CalcError::OutOfRange)
        }
    }
}

/// What an operation makes of two operands that may have failed: the left
/// operand's failure counts first, then the right one's, then the
/// operation's own.
pub open spec fn combined(
    op: char,
    left: Result<nat, CalcError>,
    right: Result<nat, CalcError>,
) -> Result<nat, CalcError> {
    match (left, right) {
        (Err(e), _) => Err(e),
        (Ok(_), Err(e)) => Err(e),
        (Ok(a), Ok(b)) => applied(op, a, b),
    }
}

/// The value of a product: numbers multiplied and divided from left to
/// right.
pub open spec fn term(s: Seq<char>) -> Result<nat, CalcError>
    decreases s.len(),
{
    let at = last_of(s, '*', '/');
    if 0 <= at < s.len() {
        combined(s[at], term(s.take(at)), number(s.skip(at + 1)))
    } else {
        number(s)
    }
}

/// The value of a line: products added and subtracted from left to right.
pub open spec fn value(s: Seq<char>) -> Result<nat, CalcError>
    decreases s.len(),
{
    let at = last_of(s, '+', '-');
    if 0 <= at < s.len() {
        combined(s[at], value(s.take(at)), term(s.skip(at + 1)))
    } else {
        term(s)
    }
}

fn find_last(chars: &Vec<char>, lo: usize, hi: usize, a: char, b: char) -> (at: Option<usize>)
    requires
        lo <= hi <= chars@.len(),
    ensures
        match at {
            Some(i) => lo <= i < hi && last_of(chars@.subrange(lo as int, hi as int), a, b) == i
                - lo,
            None => last_of(chars@.subrange(lo as int, hi as int), a, b) == -1,
        },
{
    let ghost s = chars@.subrange(lo as int, hi as int);
    let mut i: usize = hi;
    assert(s.take(s.len() as int) =~= s);
    while i > lo
        invariant
            lo <= i <= hi <= chars@.len(),
            s == chars@.subrange(lo as int, hi as int),
            last_of(s, a, b) == last_of(s.take(i - lo), a, b),
        decreases i,
    {
        let ghost part = s.take(i - lo);
        assert(part.last() == chars@[i - 1]);
        assert(part.drop_last() =~= s.take(i - lo - 1));
        i -= 1;
        if chars[i] == a || chars[i] == b {
            return Some(i);
        }
    }
    assert(s.take(0).len() == 0);
    None
}

fn read_number(chars: &Vec<char>, lo: usize, hi: usize) -> (read: Result<u32, CalcError>)
    requires
        lo <= hi <= chars@.len(),
    ensures
        match read {
            Ok(n) => number(chars@.subrange(lo as int, hi as int)) == Ok::<nat, CalcError>(
                n as nat,
            ),
            Err(e) => number(chars@.subrange(lo as int, hi as int)) == Err::<nat, CalcError>(e),
        },
{
    let ghost s = chars@.subrange(lo as int, hi as int);
    let mut from: usize = lo;
    let mut to: usize = hi;
    loop
        invariant
            lo <= from <= to <= hi <= chars@.len(),
            unspaced(s) == unspaced(chars@.subrange(from as int, to as int)),
        ensures
            unspaced(s) == chars@.subrange(from as int, to as int),
        decreases to - from,
    {
        let ghost part = chars@.subrange(from as int, to as int);
        if from < to && chars[from] == ' ' {
            assert(part[0] == chars@[from as int]);
            assert(part.skip(1) =~= chars@.subrange(from + 1, to as int));
            from += 1;
        } else if from < to && chars[to - 1] == ' ' {
            assert(part[0] == chars@[from as int]);
            assert(part.last() == chars@[to - 1]);
            assert(part.drop_last() =~= chars@.subrange(from as int, to - 1));
            to -= 1;
        } else {
            proof {
                if from < to {
                    assert(part[0] == chars@[from as int]);
                    assert(part.last() == chars@[to - 1]);
                }
            }
            break;
        }
    }
    let mut digits: Vec<char> = Vec::new();
    let mut i: usize = from;
    while i < to
        invariant
            from <= i <= to <= chars@.len(),
            digits@ == chars@.subrange(from as int, i as int),
        decreases to - i,
    {
        digits.push(chars[i]);
        assert(digits@ =~= chars@.subrange(from as int, i + 1));
        i += 1;
    }
    match parse_u32(string_of(&digits).as_str()) {
        Some(n) => Ok(n),
        None => Err(CalcError::NotANumber),
    }
}

fn apply(op: char, left: u32, right: u32) -> (result: Result<u32, CalcError>)
    ensures
        match result {
            Ok(n) => applied(op, left as nat, right as nat) == Ok::<nat, CalcError>(n as nat),
            Err(e) => applied(op, left as nat, right as nat) == Err::<nat, CalcError>(e),
        },
{
    if op == '+' {
        let sum = left as u64 + right as u64;
        if sum <= 0xFFFF_FFFF {
            Ok(sum as u32)
        } else {
            Err(CalcError::OutOfRange)
        }
    } else if op == '-' {
        if left >= right {
            Ok(left - right)
        } else {
            Err(CalcError::OutOfRange)
        }
    } else if op == '*' {
        assert(left * right <= 0xFFFF_FFFF * 0xFFFF_FFFF) by (nonlinear_arith)
            requires
                left <= 0xFFFF_FFFF,
                right <= 0xFFFF_FFFF,
        ;
        let product = left as u64 * right as u64;
        if product <= 0xFFFF_FFFF {
            Ok(product as u32)
        } else {
            Err(CalcError::OutOfRange)
        }
    } else if right == 0 {
        Err(CalcError::DivisionByZero)
    } else {
        Ok(left / right)
    }
}

fn combine(op: char, left: Result<u32, CalcError>, right: Result<u32, CalcError>) -> (result: Result<
    u32,
    CalcError,
>)
    ensures
        lifted(result) == combined(op, lifted(left), lifted(right)),
{
    match (left, right) {
        (Err(e), _) => Err(e),
        (Ok(_), Err(e)) => Err(e),
        (Ok(a), Ok(b)) => apply(op, a, b),
    }
}

/// A result with its number as a natural number.
pub open spec fn lifted(result: Result<u32, CalcError>) -> Result<nat, CalcError> {
    match result {
        Ok(n) => Ok(n as nat),
        Err(e) => Err(e),
    }
}

fn term_of(chars: &Vec<char>, lo: usize, hi: usize) -> (result: Result<u32, CalcError>)
    requires
        lo <= hi <= chars@.len(),
    ensures
        lifted(result) == term(chars@.subrange(lo as int, hi as int)),
    decreases hi - lo,
{
    let ghost s = chars@.subrange(lo as int, hi as int);
    match find_last(chars, lo, hi, '*', '/') {
        Some(at) => {
            assert(s.take(at - lo) =~= chars@.subrange(lo as int, at as int));
            assert(s.skip(at - lo + 1) =~= chars@.subrange(at + 1, hi as int));
            assert(s[at - lo] == chars@[at as int]);
            let left = term_of(chars, lo, at);
            let right = read_number(chars, at + 1, hi);
            combine(chars[at], left, right)
        },
        None => read_number(chars, lo, hi),
    }
}

fn value_of(chars: &Vec<char>, lo: usize, hi: usize) -> (result: Result<u32, CalcError>)
    requires
        lo <= hi <= chars@.len(),
    ensures
        lifted(result) == value(chars@.subrange(lo as int, hi as int)),
    decreases hi - lo,
{
    let ghost s = chars@.subrange(lo as int, hi as int);
    match find_last(chars, lo, hi, '+', '-') {
        Some(at) => {
            assert(s.take(at - lo) =~= chars@.subrange(lo as int, at as int));
            assert(s.skip(at - lo + 1) =~= chars@.subrange(at + 1, hi as int));
            assert(s[at - lo] == chars@[at as int]);
            let left = value_of(chars, lo, at);
            let right = term_of(chars, at + 1, hi);
            combine(chars[at], left, right)
        },
        None => term_of(chars, lo, hi),
    }
}

/// Calculates a line of numbers with `+`, `-`, `*` and `/` between them.
/// Products and quotients are taken first, and operations of equal rank from
/// left to right. Every result on the way must be a number of 32 bits.
pub fn calculate(input: &str) -> (result: Result<u32, CalcError>)
    ensures
        lifted(result) == value(input@),
{
    let chars = chars_of(input);
    assert(chars@.subrange(0, chars@.len() as int) =~= chars@);
    value_of(&chars, 0, chars.len())
}

} // verus!
