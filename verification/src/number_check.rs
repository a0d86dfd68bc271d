//! Three properties of a whole number: prime, even, a multiple of ten.

use vstd::prelude::*;

verus! {

/// Whether no number from 2 up to, but not including, `n` divides `n`, for a
/// positive `n`. This counts 1 as prime.
pub open spec fn has_no_proper_divisor(n: nat) -> bool {
    n >= 1 && forall|d: nat| 2 <= d < n ==> #[trigger] (n % d) != 0
}

/// Tests by trial division whether a number has no divisor other than one and
/// itself. One passes the test; zero does not.
pub fn is_prime(num: u64) -> (prime: bool)
    ensures
        prime == has_no_proper_divisor(num as nat),
{
    if num == 0 {
        return false;
    }
    let mut i: u64 = 2;
    while i < num
        invariant
            2 <= i,
            num >= 1,
            forall|d: nat| 2 <= d < i ==> #[trigger] (num as nat % d) != 0,
        decreases num - i,
    {
        if num % i == 0 {
            assert((num as nat) % (i as nat) == 0);
            return false;
        }
        i += 1;
    }
    true
}

/// Whether a number is prime, whether it is even, and whether it is a
/// multiple of ten. Only positive numbers can be prime.
pub fn number_property(i: i64) -> (properties: (bool, bool, bool))
    ensures
        properties.0 == (i > 0 && has_no_proper_divisor(i as nat)),
        properties.1 == (i % 2 == 0),
        properties.2 == (i % 10 == 0),
{
    let is_even = i % 2 == 0;
    let is_divisible_by_ten = i % 10 == 0;
    let is_prime = if i > 0 {
        is_prime(i as u64)
    } else {
        false
    };
    (is_prime, is_even, is_divisible_by_ten)
}

} // verus!
