//! The prime factors of a number and of a factorial.

use vstd::prelude::*;
use vstd::arithmetic::div_mod::{lemma_fundamental_div_mod, lemma_mod_multiples_basic};
use vstd::std_specs::hash::spec_keys_iter;
use vstd::std_specs::iter::IteratorSpec;
use std::collections::HashMap;
use crate::text::{
    append_chars,
    append_str,
    decimal,
    decimal_chars,
    join_chars,
    joined,
    string_of,
    texts,
};

verus! {

/// Whether `p` is a prime number.
pub open spec fn is_prime_number(p: nat) -> bool {
    p >= 2 && forall|d: nat| 2 <= d < p ==> #[trigger] (p % d) != 0
}

/// The product of the numbers of a list.
pub open spec fn product(s: Seq<u32>) -> nat
    decreases s.len(),
{
    if s.len() == 0 {
        1
    } else {
        product(s.drop_last()) * (s.last() as nat)
    }
}

/// `base` to the power of `exponent`.
pub open spec fn power(base: nat, exponent: nat) -> nat
    decreases exponent,
{
    if exponent == 0 {
        1
    } else {
        base * power(base, (exponent - 1) as nat)
    }
}

/// The product of the powers that a list of bases and exponents writes.
pub open spec fn power_product(pairs: Seq<(u32, u32)>) -> nat
    decreases pairs.len(),
{
    if pairs.len() == 0 {
        1
    } else {
        power_product(pairs.drop_last()) * power(pairs.last().0 as nat, pairs.last().1 as nat)
    }
}

/// The factorial of `n`.
pub open spec fn factorial(n: nat) -> nat
    decreases n,
{
    if n == 0 {
        1
    } else {
        n * factorial((n - 1) as nat)
    }
}

/// How often `value` occurs in a list.
pub open spec fn count_in(s: Seq<u32>, value: u32) -> nat
    decreases s.len(),
{
    if s.len() == 0 {
        0
    } else if s.last() == value {
        count_in(s.drop_last(), value) + 1
    } else {
        count_in(s.drop_last(), value)
    }
}

/// Whether every number of the list is prime.
pub open spec fn all_prime(s: Seq<u32>) -> bool {
    forall|i: int| 0 <= i < s.len() ==> is_prime_number(#[trigger] s[i] as nat)
}

/// Whether the numbers of the list never fall.
pub open spec fn never_falls(s: Seq<u32>) -> bool {
    forall|i: int, j: int| 0 <= i <= j < s.len() ==> s[i] <= s[j]
}

/// Whether the bases of the list grow from each pair to the next.
pub open spec fn bases_grow(pairs: Seq<(u32, u32)>) -> bool {
    forall|i: int, j: int| 0 <= i < j < pairs.len() ==> pairs[i].0 < pairs[j].0
}

/// Whether the list holds the base `value`.
pub open spec fn has_base(pairs: Seq<(u32, u32)>, value: u32) -> bool {
    exists|i: int| 0 <= i < pairs.len() && (#[trigger] pairs[i]).0 == value
}

/// Whether `pairs` counts the occurrences in `list`: its bases are the
/// numbers that occur, in growing order, each with the number of times it
/// occurs.
pub open spec fn counts(pairs: Seq<(u32, u32)>, list: Seq<u32>) -> bool {
    &&& bases_grow(pairs)
    &&& forall|i: int|
        0 <= i < pairs.len() ==> (#[trigger] pairs[i]).1 >= 1 && pairs[i].1 == count_in(
            list,
            pairs[i].0,
        )
    &&& forall|value: u32| #[trigger] count_in(list, value) > 0 ==> has_base(pairs, value)
}

/// Whether `pairs` is the prime factorisation of `number`: primes in growing
/// order, each with its exponent, whose powers multiply to the number.
pub open spec fn factorises(pairs: Seq<(u32, u32)>, number: nat) -> bool {
    &&& bases_grow(pairs)
    &&& forall|i: int|
        0 <= i < pairs.len() ==> is_prime_number((#[trigger] pairs[i]).0 as nat) && pairs[i].1
            >= 1
    &&& power_product(pairs) == number
}

/// Whether `pairs` is what the decomposition of the factorial of `n` gives:
/// the prime factorisation of the factorial, or the pair of one and one where
/// the factorial is one.
pub open spec fn decomposes_factorial(pairs: Seq<(u32, u32)>, n: nat) -> bool {
    if n <= 1 {
        pairs == seq![(1u32, 1u32)]
    } else {
        factorises(pairs, factorial(n))
    }
}

/// A divisor of a divisor divides.
pub proof fn lemma_divides_transitive(a: nat, b: nat, c: nat)
    requires
        b > 0,
        c > 0,
        a % b == 0,
        b % c == 0,
    ensures
        a % c == 0,
{
    lemma_fundamental_div_mod(a as int, b as int);
    lemma_fundamental_div_mod(b as int, c as int);
    let x = a / b;
    let y = b / c;
    assert(a == (x * y) * c) by (nonlinear_arith)
        requires
            a == b * x,
            b == c * y,
    ;
    lemma_mod_multiples_basic((x * y) as int, c as int);
}

/// What divides a quotient divides the number.
pub proof fn lemma_divides_quotient(a: nat, b: nat, c: nat)
    requires
        b > 0,
        c > 0,
        a % b == 0,
        (a / b) % c == 0,
    ensures
        a % c == 0,
{
    lemma_fundamental_div_mod(a as int, b as int);
    lemma_fundamental_div_mod((a / b) as int, c as int);
    let x = a / b;
    let y = x / c;
    assert(a == (b * y) * c) by (nonlinear_arith)
        requires
            a == b * x,
            x == c * y,
    ;
    lemma_mod_multiples_basic((b * y) as int, c as int);
}

/// The product of a list with one more number.
pub proof fn lemma_product_push(s: Seq<u32>, x: u32)
    ensures
        product(s.push(x)) == product(s) * x,
{
    assert(s.push(x).drop_last() =~= s);
}

/// The product of two lists, one after the other.
pub proof fn lemma_product_concat(a: Seq<u32>, b: Seq<u32>)
    ensures
        product(a + b) == product(a) * product(b),
    decreases b.len(),
{
    if b.len() == 0 {
        assert(a + b =~= a);
        assert(product(a) * 1 == product(a)) by (nonlinear_arith);
    } else {
        lemma_product_concat(a, b.drop_last());
        assert((a + b).drop_last() =~= a + b.drop_last());
        assert((a + b).last() == b.last());
        let x = b.last() as nat;
        assert(product(a) * product(b.drop_last()) * x == product(a) * (product(b.drop_last())
            * x)) by (nonlinear_arith);
    }
}

/// A list of numbers from two up has a product of at least two to the power
/// of its length.
pub proof fn lemma_product_at_least(s: Seq<u32>)
    requires
        forall|i: int| 0 <= i < s.len() ==> #[trigger] s[i] >= 2,
    ensures
        product(s) >= power(2, s.len()),
    decreases s.len(),
{
    if s.len() > 0 {
        lemma_product_at_least(s.drop_last());
        assert(product(s.drop_last()) * s.last() >= power(2, (s.len() - 1) as nat) * 2)
            by (nonlinear_arith)
            requires
                product(s.drop_last()) >= power(2, (s.len() - 1) as nat),
                s.last() >= 2,
        ;
    }
}

/// Powers of two grow.
pub proof fn lemma_power_of_two_grows(a: nat, b: nat)
    requires
        a <= b,
    ensures
        power(2, a) <= power(2, b),
        power(2, a) >= 1,
    decreases b,
{
    if a < b {
        lemma_power_of_two_grows(a, (b - 1) as nat);
    } else if a > 0 {
        lemma_power_of_two_grows((a - 1) as nat, (b - 1) as nat);
    }
}

/// The least number from `from` up that divides `n`; `n` itself where none
/// below it does.
pub open spec fn least_factor(n: nat, from: nat) -> nat
    decreases n - from,
{
    if from >= n || from == 0 {
        n
    } else if n % from == 0 {
        from
    } else {
        least_factor(n, from + 1)
    }
}

/// The least factor lies between where the search starts and the number, and
/// divides the number.
pub proof fn lemma_least_factor(n: nat, from: nat)
    requires
        1 <= from <= n,
    ensures
        from <= least_factor(n, from) <= n,
        n % least_factor(n, from) == 0,
    decreases n - from,
{
    if from < n && n % from != 0 {
        lemma_least_factor(n, from + 1);
    } else if from >= n {
        assert(n % n == 0) by (nonlinear_arith)
            requires
                n >= 1,
        ;
    }
}

/// Where no number from `from` up to `to` divides `n`, the search for the
/// least factor may as well start at `to`.
pub proof fn lemma_least_factor_skips(n: nat, from: nat, to: nat)
    requires
        1 <= from <= to <= n,
        forall|d: nat| from <= d < to ==> #[trigger] (n % d) != 0,
    ensures
        least_factor(n, from) == least_factor(n, to),
    decreases to - from,
{
    if from < to {
        assert(n % from != 0);
        lemma_least_factor_skips(n, from + 1, to);
    }
}

/// The prime factors of `n`, each as often as it divides `n`, in growing
/// order: the least factor of `n`, then the prime factors of what is left.
pub open spec fn prime_factors(n: nat) -> Seq<u32>
    decreases n,
    via prime_factors_decreases
{
    if n < 2 {
        Seq::empty()
    } else {
        seq![least_factor(n, 2) as u32] + prime_factors(n / least_factor(n, 2))
    }
}

#[via_fn]
proof fn prime_factors_decreases(n: nat) {
    if n >= 2 {
        lemma_least_factor(n, 2);
        let f = least_factor(n, 2);
        assert(n / f < n) by (nonlinear_arith)
            requires
                2 <= f <= n,
        ;
    }
}

/// The prime factors of all numbers from two to `n`, one number after the
/// other.
pub open spec fn factors_through(n: nat) -> Seq<u32>
    decreases n,
{
    if n < 2 {
        Seq::empty()
    } else {
        factors_through((n - 1) as nat) + prime_factors(n)
    }
}

/// Whether no number occurs in the list more often than can be counted in 32
/// bits.
#[verifier::opaque]
pub open spec fn all_counts_fit(list: Seq<u32>) -> bool {
    forall|value: u32| #[trigger] count_in(list, value) <= u32::MAX
}

/// Where all counts fit, each does.
pub proof fn lemma_count_fits(list: Seq<u32>, value: u32)
    requires
        all_counts_fit(list),
    ensures
        count_in(list, value) <= u32::MAX,
{
    reveal(all_counts_fit);
}

/// Whether the exponent of every prime in the factorial of `n` can be counted
/// in 32 bits.
pub open spec fn exponents_countable(n: nat) -> bool {
    all_counts_fit(factors_through(n))
}

/// The prime factors of `n`, each as often as it divides `n`, in growing
/// order. Zero and one have none.
pub fn prime_decomposition(n: u32) -> (factors: Vec<u32>)
    ensures
        factors@ == prime_factors(n as nat),
        all_prime(factors@),
        never_falls(factors@),
        n >= 1 ==> product(factors@) == n,
        n == 0 ==> factors@.len() == 0,
        factors@.len() <= 31,
{
    let mut output: Vec<u32> = Vec::new();
    let mut curr: u32 = n;
    if n < 2 {
        return output;
    }
    assert(product(output@) == 1);
    assert(output@ + prime_factors(n as nat) =~= prime_factors(n as nat));
    let mut i: u32 = 2;
    loop
        invariant_except_break
            2 <= i <= n,
            forall|d: nat| 2 <= d < i ==> #[trigger] (curr as nat % d) != 0,
            forall|k: int| 0 <= k < output@.len() ==> #[trigger] output@[k] < i,
        invariant
            1 <= curr <= n,
            output@ + prime_factors(curr as nat) == prime_factors(n as nat),
            curr * product(output@) == n,
            all_prime(output@),
            never_falls(output@),
        ensures
            curr == 1,
        decreases n - i,
    {
        while curr % i == 0
            invariant
                2 <= i <= n,
                1 <= curr <= n,
                output@ + prime_factors(curr as nat) == prime_factors(n as nat),
                curr * product(output@) == n,
                forall|d: nat| 2 <= d < i ==> #[trigger] (curr as nat % d) != 0,
                all_prime(output@),
                never_falls(output@),
                forall|k: int| 0 <= k < output@.len() ==> #[trigger] output@[k] <= i,
            decreases curr,
        {
            proof {
                assert forall|d: nat| 2 <= d < i implies #[trigger] (i as nat % d) != 0 by {
                    if i as nat % d == 0 {
                        lemma_divides_transitive(curr as nat, i as nat, d);
                    }
                }
                assert(is_prime_number(i as nat));
                assert forall|d: nat| 2 <= d < i implies #[trigger] ((curr / i) as nat % d)
                    != 0 by {
                    if (curr / i) as nat % d == 0 {
                        lemma_divides_quotient(curr as nat, i as nat, d);
                    }
                }
                lemma_fundamental_div_mod(curr as int, i as int);
                lemma_product_push(output@, i);
                assert((curr / i) * (product(output@) * i) == n) by (nonlinear_arith)
                    requires
                        curr == i * (curr / i),
                        curr * product(output@) == n,
                ;
                assert(curr / i < curr) by (nonlinear_arith)
                    requires
                        curr == i * (curr / i),
                        i >= 2,
                        curr >= 1,
                ;
                assert(curr / i >= 1) by (nonlinear_arith)
                    requires
                        curr == i * (curr / i),
                        curr >= 1,
                        i >= 2,
                ;
                assert(i <= curr) by (nonlinear_arith)
                    requires
                        curr == i * (curr / i),
                        curr / i >= 1,
                        i >= 2,
                ;
                lemma_least_factor_skips(curr as nat, 2, i as nat);
                assert(least_factor(curr as nat, i as nat) == i);
                assert(output@.push(i) + prime_factors((curr / i) as nat) =~= output@ + (seq![i]
                    + prime_factors((curr / i) as nat)));
            }
            output.push(i);
            curr = curr / i;
        }
        if i == n {
            proof {
                if curr > 1 {
                    assert(curr as nat % (curr as nat) == 0);
                    assert(curr as nat % (i as nat) != 0);
                }
            }
            break;
        }
        i += 1;
    }
    proof {
        assert(output@ + prime_factors(1) =~= output@);
        assert(product(output@) == n) by (nonlinear_arith)
            requires
                curr == 1,
                curr * product(output@) == n,
        ;
        assert forall|k: int| 0 <= k < output@.len() implies #[trigger] output@[k] >= 2 by {
            assert(is_prime_number(output@[k] as nat));
        }
        lemma_product_at_least(output@);
        if output@.len() >= 32 {
            lemma_power_of_two_grows(32, output@.len());
            assert(power(2, 32) == 0x1_0000_0000) by {
                reveal_with_fuel(power, 33);
            }
        }
    }
    output
}


/// One more of a base multiplies the product by the base.
pub proof fn lemma_power_product_update(pairs: Seq<(u32, u32)>, j: int)
    requires
        0 <= j < pairs.len(),
        pairs[j].1 < u32::MAX,
    ensures
        power_product(pairs.update(j, (pairs[j].0, (pairs[j].1 + 1) as u32))) == power_product(
            pairs,
        ) * pairs[j].0,
    decreases pairs.len(),
{
    let updated = pairs.update(j, (pairs[j].0, (pairs[j].1 + 1) as u32));
    let base = pairs[j].0 as nat;
    if j == pairs.len() - 1 {
        assert(updated.drop_last() =~= pairs.drop_last());
        assert(power(base, (pairs[j].1 + 1) as nat) == base * power(base, pairs[j].1 as nat));
        assert(power_product(pairs.drop_last()) * (base * power(base, pairs[j].1 as nat))
            == power_product(pairs.drop_last()) * power(base, pairs[j].1 as nat) * base)
            by (nonlinear_arith);
    } else {
        lemma_power_product_update(pairs.drop_last(), j);
        assert(updated.drop_last() =~= pairs.drop_last().update(
            j,
            (pairs[j].0, (pairs[j].1 + 1) as u32),
        ));
        let tail = power(pairs.last().0 as nat, pairs.last().1 as nat);
        assert(power_product(pairs.drop_last()) * base * tail == power_product(pairs.drop_last())
            * tail * base) by (nonlinear_arith);
    }
}

/// A new base that occurs once multiplies the product by the base.
pub proof fn lemma_power_product_insert(pairs: Seq<(u32, u32)>, j: int, base: u32)
    requires
        0 <= j <= pairs.len(),
    ensures
        power_product(pairs.insert(j, (base, 1u32))) == power_product(pairs) * base,
    decreases pairs.len(),
{
    let inserted = pairs.insert(j, (base, 1u32));
    if j == pairs.len() {
        assert(inserted.drop_last() =~= pairs);
        assert(power(base as nat, 1) == base) by {
            reveal_with_fuel(power, 2);
            assert(base as nat * 1 == base) by (nonlinear_arith);
        }
    } else {
        lemma_power_product_insert(pairs.drop_last(), j, base);
        assert(inserted.drop_last() =~= pairs.drop_last().insert(j, (base, 1u32)));
        assert(inserted.last() == pairs.last());
        let tail = power(pairs.last().0 as nat, pairs.last().1 as nat);
        assert(power_product(pairs.drop_last()) * base * tail == power_product(pairs.drop_last())
            * tail * base) by (nonlinear_arith);
    }
}

/// What is counted occurs.
pub proof fn lemma_counted_occurs(s: Seq<u32>, value: u32)
    requires
        count_in(s, value) > 0,
    ensures
        exists|i: int| 0 <= i < s.len() && #[trigger] s[i] == value,
    decreases s.len(),
{
    if s.last() == value {
        assert(s[s.len() - 1] == value);
    } else {
        lemma_counted_occurs(s.drop_last(), value);
        let i = choose|i: int| 0 <= i < s.drop_last().len() && #[trigger] s.drop_last()[i] == value;
        assert(s[i] == value);
    }
}

/// Nothing occurs more often in the start of a list than in the whole.
pub proof fn lemma_count_grows(s: Seq<u32>, k: int, value: u32)
    requires
        0 <= k <= s.len(),
    ensures
        count_in(s.take(k), value) <= count_in(s, value),
    decreases s.len(),
{
    if k < s.len() {
        lemma_count_grows(s.drop_last(), k, value);
        assert(s.drop_last().take(k) =~= s.take(k));
    } else {
        assert(s.take(k) =~= s);
    }
}

/// Where `pairs` counts the occurrences in a list, the powers it writes
/// multiply to the product of the list.
pub proof fn lemma_counts_product(pairs: Seq<(u32, u32)>, list: Seq<u32>)
    requires
        counts(pairs, list),
    ensures
        power_product(pairs) == product(list),
    decreases list.len(),
{
    if list.len() == 0 {
        if pairs.len() > 0 {
            assert(pairs[0].1 == count_in(list, pairs[0].0));
        }
    } else {
        let x = list.last();
        let rest = list.drop_last();
        assert(count_in(list, x) > 0);
        let j = choose|j: int| 0 <= j < pairs.len() && (#[trigger] pairs[j]).0 == x;
        let c = pairs[j].1;
        assert(c == count_in(rest, x) + 1);
        if c >= 2 {
            let fewer = pairs.update(j, (x, (c - 1) as u32));
            assert(counts(fewer, rest)) by {
                assert(bases_grow(fewer)) by {
                    assert forall|a: int, b: int| 0 <= a < b < fewer.len() implies fewer[a].0
                        < fewer[b].0 by {
                        assert(fewer[a].0 == pairs[a].0 && fewer[b].0 == pairs[b].0);
                    }
                }
                assert forall|i: int| 0 <= i < fewer.len() implies (#[trigger] fewer[i]).1 >= 1
                    && fewer[i].1 == count_in(rest, fewer[i].0) by {
                    if i != j {
                        assert(fewer[i] == pairs[i]);
                        if i < j {
                            assert(pairs[i].0 < pairs[j].0);
                        } else {
                            assert(pairs[j].0 < pairs[i].0);
                        }
                    }
                }
                assert forall|value: u32| #[trigger] count_in(rest, value) > 0 implies has_base(
                    fewer,
                    value,
                ) by {
                    assert(count_in(list, value) > 0);
                    let k = choose|k: int| 0 <= k < pairs.len() && (#[trigger] pairs[k]).0 == value;
                    assert(fewer[k].0 == value);
                }
            }
            lemma_counts_product(fewer, rest);
            lemma_power_product_update(fewer, j);
            assert(fewer.update(j, (fewer[j].0, (fewer[j].1 + 1) as u32)) =~= pairs);
        } else {
            let fewer = pairs.remove(j);
            assert(counts(fewer, rest)) by {
                assert(bases_grow(fewer)) by {
                    assert forall|a: int, b: int| 0 <= a < b < fewer.len() implies fewer[a].0
                        < fewer[b].0 by {
                        let a0 = if a < j { a } else { a + 1 };
                        let b0 = if b < j { b } else { b + 1 };
                        assert(fewer[a] == pairs[a0] && fewer[b] == pairs[b0]);
                        assert(pairs[a0].0 < pairs[b0].0);
                    }
                }
                assert forall|i: int| 0 <= i < fewer.len() implies (#[trigger] fewer[i]).1 >= 1
                    && fewer[i].1 == count_in(rest, fewer[i].0) by {
                    let i0 = if i < j { i } else { i + 1 };
                    assert(fewer[i] == pairs[i0]);
                    if i0 < j {
                        assert(pairs[i0].0 < pairs[j].0);
                    } else {
                        assert(pairs[j].0 < pairs[i0].0);
                    }
                }
                assert forall|value: u32| #[trigger] count_in(rest, value) > 0 implies has_base(
                    fewer,
                    value,
                ) by {
                    assert(value != x);
                    assert(count_in(list, value) > 0);
                    let k = choose|k: int| 0 <= k < pairs.len() && (#[trigger] pairs[k]).0 == value;
                    if k < j {
                        assert(fewer[k].0 == value);
                    } else {
                        assert(fewer[k - 1].0 == value);
                    }
                }
            }
            lemma_counts_product(fewer, rest);
            lemma_power_product_insert(fewer, j, x);
            assert(fewer.insert(j, (x, 1u32)) =~= pairs);
        }
    }
}

/// Whether `value` is among the first `n` of the keys.
pub open spec fn walked(keys: Seq<&u32>, n: int, value: u32) -> bool {
    exists|m: int| 0 <= m < n && *(#[trigger] keys[m]) == value
}

fn tally(list: &Vec<u32>) -> (tallies: HashMap<u32, u32>)
    requires
        all_counts_fit(list@),
    ensures
        forall|value: u32| tallies@.contains_key(value) <==> count_in(list@, value) > 0,
        forall|value: u32|
            tallies@.contains_key(value) ==> #[trigger] tallies@[value] == count_in(list@, value),
{
    broadcast use vstd::std_specs::hash::group_hash_axioms;

    let mut tallies: HashMap<u32, u32> = HashMap::new();
    let mut i: usize = 0;
    assert(list@.take(0) =~= Seq::empty());
    while i < list.len()
        invariant
            i <= list.len(),
            all_counts_fit(list@),
            forall|value: u32|
                tallies@.contains_key(value) <==> count_in(list@.take(i as int), value) > 0,
            forall|value: u32|
                tallies@.contains_key(value) ==> #[trigger] tallies@[value] == count_in(
                    list@.take(i as int),
                    value,
                ),
        decreases list.len() - i,
    {
        let x = list[i];
        proof {
            assert(list@.take(i + 1).drop_last() =~= list@.take(i as int));
            lemma_count_grows(list@, i + 1, x);
            lemma_count_fits(list@, x);
        }
        let count: u32 = match tallies.get(&x) {
            Some(count) => *count,
            None => 0,
        };
        tallies.insert(x, count + 1);
        i += 1;
    }
    assert(list@.take(i as int) =~= list@);
    tallies
}

/// Counts how often each number occurs in a list. The numbers that occur come
/// in growing order, each with its count.
pub fn count_occurances(list: Vec<u32>) -> (pairs: Vec<(u32, u32)>)
    requires
        all_counts_fit(list@),
    ensures
        counts(pairs@, list@),
        power_product(pairs@) == product(list@),
{
    broadcast use vstd::std_specs::hash::group_hash_axioms;

    let tallies = tally(&list);
    let mut pairs: Vec<(u32, u32)> = Vec::new();
    let ghost keys = spec_keys_iter(&tallies).remaining();
    for key in it: tallies.keys()
        invariant
            it.seq() == keys,
            keys == spec_keys_iter(&tallies).remaining(),
            bases_grow(pairs@),
            forall|j: int|
                0 <= j < pairs@.len() ==> walked(keys, it.index() as int, (#[trigger] pairs@[j]).0)
                    && tallies@.contains_key(pairs@[j].0) && pairs@[j].1 == tallies@[pairs@[j].0],
            forall|m: int| 0 <= m < it.index() ==> has_base(pairs@, *(#[trigger] keys[m])),
    {
        let ghost before = pairs@;
        let ghost n = it.index() as int;
        let x = *key;
        proof {
            assert(keys.unref().to_set().contains(x)) by {
                assert(keys.unref()[n] == x);
            }
            if has_base(before, x) {
                let k = choose|k: int| 0 <= k < before.len() && (#[trigger] before[k]).0 == x;
                let m = choose|m: int| 0 <= m < n && *(#[trigger] keys[m]) == x;
                assert(keys[m] == keys[n]);
            }
        }
        let count: u32 = match tallies.get(key) {
            Some(count) => *count,
            None => 0,
        };
        let mut j: usize = 0;
        while j < pairs.len() && pairs[j].0 < x
            invariant
                j <= pairs.len(),
                pairs@ == before,
                forall|k: int| 0 <= k < j ==> (#[trigger] pairs@[k]).0 < x,
            decreases pairs.len() - j,
        {
            j += 1;
        }
        pairs.insert(j, (x, count));
        proof {
            let after = pairs@;
            assert(after =~= before.insert(j as int, (x, count)));
            assert(bases_grow(after)) by {
                assert forall|a: int, b: int| 0 <= a < b < after.len() implies after[a].0
                    < after[b].0 by {
                    if b < j {
                        assert(before[a].0 < before[b].0);
                    } else if b == j {
                        assert(before[a].0 < x);
                    } else if a < j {
                        assert(before[a].0 < before[b - 1].0);
                    } else if a == j {
                        assert(before[j as int].0 != x);
                        assert(before[j as int].0 <= before[b - 1].0);
                    } else {
                        assert(before[a - 1].0 < before[b - 1].0);
                    }
                }
            }
            assert forall|k: int| 0 <= k < after.len() implies walked(
                keys,
                n + 1,
                (#[trigger] after[k]).0,
            ) && tallies@.contains_key(after[k].0) && after[k].1 == tallies@[after[k].0] by {
                if k < j {
                    assert(after[k] == before[k]);
                    let m = choose|m: int| 0 <= m < n && *(#[trigger] keys[m]) == before[k].0;
                    assert(*keys[m] == after[k].0);
                } else if k > j {
                    assert(after[k] == before[k - 1]);
                    let m = choose|m: int| 0 <= m < n && *(#[trigger] keys[m]) == before[k - 1].0;
                    assert(*keys[m] == after[k].0);
                } else {
                    assert(*keys[n] == x);
                }
            }
            assert forall|m: int| 0 <= m < n + 1 implies has_base(after, *(#[trigger] keys[m])) by {
                if m < n {
                    let k = choose|k: int|
                        0 <= k < before.len() && (#[trigger] before[k]).0 == *keys[m];
                    if k < j {
                        assert(after[k].0 == *keys[m]);
                    } else {
                        assert(after[k + 1].0 == *keys[m]);
                    }
                } else {
                    assert(after[j as int].0 == x);
                }
            }
        }
    }
    proof {
        assert(counts(pairs@, list@)) by {
            assert forall|value: u32| #[trigger] count_in(list@, value) > 0 implies has_base(
                pairs@,
                value,
            ) by {
                assert(tallies@.dom().contains(value));
                assert(keys.unref().to_set().contains(value));
                let m = choose|m: int| 0 <= m < keys.unref().len() && keys.unref()[m] == value;
                assert(*keys[m] == value);
            }
        }
        lemma_counts_product(pairs@, list@);
    }
    pairs
}

/// The product of the numbers up to `n` is the factorial of `n`.
pub proof fn lemma_factorial_step(n: nat)
    requires
        n >= 1,
    ensures
        factorial(n) == factorial((n - 1) as nat) * n,
{
    assert(n * factorial((n - 1) as nat) == factorial((n - 1) as nat) * n) by (nonlinear_arith);
}

/// Nothing occurs more often than the list is long.
pub proof fn lemma_count_bound(s: Seq<u32>, value: u32)
    ensures
        count_in(s, value) <= s.len(),
    decreases s.len(),
{
    if s.len() > 0 {
        lemma_count_bound(s.drop_last(), value);
    }
}

/// A number of 32 bits is the product of its prime factors, none of which is
/// below two, so that it has at most 31 of them.
pub proof fn lemma_prime_factors_product(n: nat)
    requires
        1 <= n <= u32::MAX,
    ensures
        product(prime_factors(n)) == n,
        forall|i: int| 0 <= i < prime_factors(n).len() ==> #[trigger] prime_factors(n)[i] >= 2,
        prime_factors(n).len() <= 31,
    decreases n,
{
    let factors = prime_factors(n);
    if n >= 2 {
        lemma_least_factor(n, 2);
        let f = least_factor(n, 2);
        let rest = prime_factors(n / f);
        lemma_fundamental_div_mod(n as int, f as int);
        assert(1 <= n / f < n) by (nonlinear_arith)
            requires
                n == f * (n / f),
                2 <= f <= n,
        ;
        lemma_prime_factors_product(n / f);
        let first = seq![f as u32];
        assert(first.drop_last() =~= Seq::<u32>::empty());
        assert(product(first) == f) by {
            assert(product(first.drop_last()) == 1);
            assert(1 * f == f) by (nonlinear_arith);
        }
        lemma_product_concat(first, rest);
        assert(product(factors) == n) by (nonlinear_arith)
            requires
                product(factors) == f * (n / f),
                n == f * (n / f),
        ;
        assert forall|i: int| 0 <= i < factors.len() implies #[trigger] factors[i] >= 2 by {
            if i > 0 {
                assert(factors[i] == rest[i - 1]);
            }
        }
    }
    lemma_product_at_least(factors);
    if factors.len() >= 32 {
        lemma_power_of_two_grows(32, factors.len());
        assert(power(2, 32) == 0x1_0000_0000) by {
            reveal_with_fuel(power, 33);
        }
    }
}

/// The numbers up to `n` have at most 31 prime factors each.
pub proof fn lemma_factors_through_len(n: nat)
    requires
        n <= u32::MAX,
    ensures
        factors_through(n).len() <= 31 * n,
    decreases n,
{
    if n >= 2 {
        lemma_factors_through_len((n - 1) as nat);
        lemma_prime_factors_product(n);
    }
}

/// The exponents in the factorial of a number up to a thirty-first of the
/// largest 32-bit number can be counted in 32 bits: there are at most 31
/// prime factors for each number up to it.
pub proof fn lemma_small_factorials_countable(n: nat)
    requires
        31 * n <= u32::MAX,
    ensures
        exponents_countable(n),
{
    reveal(all_counts_fit);
    lemma_factors_through_len(n);
    assert forall|value: u32| #[trigger]
        count_in(factors_through(n), value) <= u32::MAX by {
        lemma_count_bound(factors_through(n), value);
    }
}

/// The prime factors of the factorial of `n` with their exponents, in growing
/// order. Where the factorial is one, the pair of one and one stands for it.
pub fn factorial_decomposition(n: u32) -> (pairs: Vec<(u32, u32)>)
    requires
        exponents_countable(n as nat),
    ensures
        decomposes_factorial(pairs@, n as nat),
{
    if n == 0 || n == 1 {
        let mut pairs: Vec<(u32, u32)> = Vec::new();
        pairs.push((1, 1));
        assert(pairs@ =~= seq![(1u32, 1u32)]);
        pairs
    } else {
        let mut factors: Vec<u32> = Vec::new();
        let mut i: u32 = 2;
        assert(factorial(1) == 1) by {
            reveal_with_fuel(factorial, 2);
        }
        assert(product(factors@) == 1);
        assert(factors@ =~= factors_through(1));
        loop
            invariant_except_break
                2 <= i <= n,
                factors@ == factors_through((i - 1) as nat),
                product(factors@) == factorial((i - 1) as nat),
            invariant
                all_prime(factors@),
            ensures
                factors@ == factors_through(n as nat),
                product(factors@) == factorial(n as nat),
            decreases n - i,
        {
            let more = prime_decomposition(i);
            let ghost before = factors@;
            let mut k: usize = 0;
            while k < more.len()
                invariant
                    k <= more.len(),
                    factors@ == before + more@.take(k as int),
                decreases more.len() - k,
            {
                factors.push(more[k]);
                assert(factors@ =~= before + more@.take(k + 1));
                k += 1;
            }
            proof {
                assert(more@.take(k as int) =~= more@);
                lemma_product_concat(before, more@);
                lemma_factorial_step(i as nat);
            }
            if i == n {
                break;
            }
            i += 1;
        }
        let pairs = count_occurances(factors);
        proof {
            assert forall|k: int| 0 <= k < pairs@.len() implies is_prime_number(
                (#[trigger] pairs@[k]).0 as nat,
            ) && pairs@[k].1 >= 1 by {
                lemma_counted_occurs(factors@, pairs@[k].0);
            }
        }
        pairs
    }
}

/// A prime with its exponent: the exponent is left out where it is one.
pub open spec fn power_text(pair: (u32, u32)) -> Seq<char> {
    if pair.1 == 1 {
        decimal(pair.0 as nat)
    } else {
        decimal(pair.0 as nat) + "^"@ + decimal(pair.1 as nat)
    }
}

/// The line that reports a decomposition of the factorial of `n`.
pub open spec fn decomposition_text(n: nat, pairs: Seq<(u32, u32)>) -> Seq<char> {
    "n = "@ + decimal(n) + "; decomp("@ + decimal(n) + ") -> \""@ + joined(
        pairs.map_values(|pair: (u32, u32)| power_text(pair)),
        " * "@,
    ) + "\""@
}

fn format_single_factorial(x: &(u32, u32)) -> (text: Vec<char>)
    ensures
        text@ == power_text(*x),
{
    let mut text = decimal_chars(x.0 as u64);
    if x.1 != 1 {
        append_str(&mut text, "^");
        append_chars(&mut text, &decimal_chars(x.1 as u64));
    }
    text
}

/// Reports the decomposition of the factorial of `n` in one line, the powers
/// separated by asterisks.
pub fn fac_decomp_string(n: u32) -> (text: String)
    requires
        exponents_countable(n as nat),
    ensures
        exists|pairs: Seq<(u32, u32)>| #[trigger]
            decomposes_factorial(pairs, n as nat) && text@ == decomposition_text(n as nat, pairs),
{
    let factorial_decomposition = factorial_decomposition(n);
    let mut powers: Vec<Vec<char>> = Vec::new();
    let mut i: usize = 0;
    while i < factorial_decomposition.len()
        invariant
            i <= factorial_decomposition.len(),
            powers.len() == i,
            forall|k: int|
                0 <= k < i ==> (#[trigger] powers@[k])@ == power_text(factorial_decomposition@[k]),
        decreases factorial_decomposition.len() - i,
    {
        powers.push(format_single_factorial(&factorial_decomposition[i]));
        i += 1;
    }
    assert(texts(powers@) =~= factorial_decomposition@.map_values(
        |pair: (u32, u32)| power_text(pair),
    ));
    let fac_string = join_chars(&powers, " * ");
    let numeral = decimal_chars(n as u64);
    let mut line: Vec<char> = Vec::new();
    append_str(&mut line, "n = ");
    append_chars(&mut line, &numeral);
    append_str(&mut line, "; decomp(");
    append_chars(&mut line, &numeral);
    append_str(&mut line, ") -> \"");
    append_chars(&mut line, &fac_string);
    append_str(&mut line, "\"");
    assert(line@ =~= decomposition_text(n as nat, factorial_decomposition@));
    string_of(&line)
}

} // verus!
