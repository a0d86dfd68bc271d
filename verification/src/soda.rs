//! Whose turn it is when sodas are handed round in growing rounds: in the
//! first round everyone in line gets one, in the second everyone gets two in
//! a row, and so on.

use vstd::prelude::*;

verus! {

/// The number of sodas handed out in the first `rounds` rounds to a line of
/// `people`.
pub open spec fn served_through(people: nat, rounds: nat) -> nat {
    people * (rounds * (rounds + 1) / 2)
}

/// The first round, from `round` on, by the end of which `soda_num` sodas
/// have been handed out.
pub open spec fn round_from(people: nat, soda_num: nat, round: nat) -> nat
    decreases soda_num - round,
{
    if served_through(people, round) >= soda_num || people == 0 {
        round
    } else {
        proof {
            lemma_served_at_least(people, round);
        }
        round_from(people, soda_num, round + 1)
    }
}

/// A line that is not empty has had at least one soda for each round.
pub proof fn lemma_served_at_least(people: nat, round: nat)
    requires
        people >= 1,
    ensures
        served_through(people, round) >= round,
{
    assert(round * (round + 1) / 2 >= round) by {
        assert(round * (round + 1) >= 2 * round) by (nonlinear_arith);
    }
    assert(people * (round * (round + 1) / 2) >= round * (round + 1) / 2) by (nonlinear_arith)
        requires
            people >= 1,
    ;
}

/// The place in line, counted from zero, of the person who gets soda number
/// `soda_num`, counted from one.
pub open spec fn soda_index(people: nat, soda_num: nat) -> nat {
    let round = round_from(people, soda_num, 1);
    ((soda_num - 1 - served_through(people, (round - 1) as nat)) / (round as int)) as nat
}

/// Each round hands out as many sodas as its number for each person in line.
pub proof fn lemma_served_grows(people: nat, round: nat)
    ensures
        served_through(people, round + 1) == served_through(people, round) + people * (round + 1),
{
    assert((round + 1) * (round + 2) / 2 == round * (round + 1) / 2 + (round + 1)) by {
        assert((round + 1) * (round + 2) == round * (round + 1) + 2 * (round + 1))
            by (nonlinear_arith);
    }
    assert(people * (round * (round + 1) / 2 + (round + 1)) == people * (round * (round + 1) / 2)
        + people * (round + 1)) by (nonlinear_arith);
}

/// The place in line of the person who gets soda number `soda_num`, found by
/// counting the rounds.
pub fn find_index_iter(num_people: u64, soda_num: u64) -> (index: u64)
    requires
        num_people >= 1,
        soda_num >= 1,
    ensures
        index == soda_index(num_people as nat, soda_num as nat),
        index < num_people,
{
    let mut current_group_size: u128 = num_people as u128;
    let mut total_size: u128 = num_people as u128;
    let mut total_groups: u128 = 1;
    assert(served_through(num_people as nat, 1) == num_people) by {
        assert(1 * (1 + 1) / 2 == 1nat);
        assert(num_people as nat * 1 == num_people) by (nonlinear_arith);
    }
    assert(served_through(num_people as nat, 0) == 0) by (nonlinear_arith);
    while soda_num as u128 > total_size
        invariant
            num_people >= 1,
            total_groups >= 1,
            current_group_size == num_people * total_groups,
            total_size == served_through(num_people as nat, total_groups as nat),
            total_size - current_group_size == served_through(
                num_people as nat,
                (total_groups - 1) as nat,
            ),
            total_size - current_group_size < soda_num,
            total_groups <= total_size,
            current_group_size <= total_size,
            round_from(num_people as nat, soda_num as nat, 1) == round_from(
                num_people as nat,
                soda_num as nat,
                total_groups as nat,
            ),
        decreases
                if soda_num > total_size {
                    soda_num - total_size
                } else {
                    0
                },
    {
        proof {
            lemma_served_grows(num_people as nat, total_groups as nat);
            assert(num_people * (total_groups + 1) == num_people * total_groups + num_people)
                by (nonlinear_arith);
        }
        current_group_size += num_people as u128;
        total_size += current_group_size;
        total_groups += 1;
    }
    let local_group_index: u128 = current_group_size - (total_size - soda_num as u128) - 1;
    let index = local_group_index / total_groups;
    proof {
        assert(round_from(num_people as nat, soda_num as nat, total_groups as nat)
            == total_groups);
        assert(local_group_index < num_people * total_groups);
        assert(index < num_people) by (nonlinear_arith)
            requires
                index == local_group_index / total_groups,
                local_group_index < num_people * total_groups,
                total_groups >= 1,
        ;
    }
    index as u64
}

/// The name of the person who gets soda number `soda_num`, counted from one.
pub fn whos_soda<'a>(people: &'a [&'a str], soda_num: u64) -> (name: &'a str)
    requires
        people@.len() >= 1,
        soda_num >= 1,
    ensures
        name == people@[soda_index(people@.len(), soda_num as nat) as int],
{
    people[find_index_iter(people.len() as u64, soda_num) as usize]
}

} // verus!
