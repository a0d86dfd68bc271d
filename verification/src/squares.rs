//! Writing the square of a number as a sum of squares of smaller numbers, all
//! different.

use vstd::prelude::*;

verus! {

/// The sum of the squares of the numbers of a list.
pub open spec fn square_sum(s: Seq<u32>) -> nat
    decreases s.len(),
{
    if s.len() == 0 {
        0
    } else {
        square_sum(s.drop_last()) + (s.last() as nat) * (s.last() as nat)
    }
}

/// Whether the numbers of the list grow from each to the next.
pub open spec fn rises(s: Seq<u32>) -> bool {
    forall|i: int, j: int| 0 <= i < j < s.len() ==> s[i] < s[j]
}

/// Whether the list is a way to write `goal` as a sum of squares of different
/// numbers from one to `max`, smallest first.
pub open spec fn squares_to(s: Seq<u32>, goal: nat, max: nat) -> bool {
    &&& rises(s)
    &&& forall|i: int| 0 <= i < s.len() ==> 1 <= #[trigger] s[i] <= max
    &&& square_sum(s) == goal
}

/// Whether the list `s` comes at or before the list `best` when lists are
/// ordered by their largest number, then by their second largest, and so on.
pub open spec fn at_most(s: Seq<u32>, best: Seq<u32>) -> bool
    decreases s.len(),
{
    if s.len() == 0 || best.len() == 0 {
        s.len() == 0
    } else if s.last() != best.last() {
        s.last() < best.last()
    } else {
        at_most(s.drop_last(), best.drop_last())
    }
}

/// Whether `best` is the way to write `goal` that uses the largest numbers:
/// it is one, and every way comes at or before it.
pub open spec fn best_squares_to(best: Seq<u32>, goal: nat, max: nat) -> bool {
    &&& squares_to(best, goal, max)
    &&& forall|s: Seq<u32>| #[trigger] squares_to(s, goal, max) ==> at_most(s, best)
}

/// Whether `goal` cannot be written as a sum of squares of different numbers
/// from one to `max`.
pub open spec fn no_squares_to(goal: nat, max: nat) -> bool {
    forall|s: Seq<u32>| !#[trigger] squares_to(s, goal, max)
}

/// A way to write a number, without its largest number, is a way to write
/// what is left with smaller numbers.
pub proof fn lemma_without_largest(s: Seq<u32>, goal: nat, max: nat)
    requires
        squares_to(s, goal, max),
        s.len() > 0,
    ensures
        goal >= (s.last() as nat) * (s.last() as nat),
        squares_to(
            s.drop_last(),
            (goal - (s.last() as nat) * (s.last() as nat)) as nat,
            (s.last() - 1) as nat,
        ),
{
    let rest = s.drop_last();
    assert forall|i: int| 0 <= i < rest.len() implies 1 <= #[trigger] rest[i] <= s.last() - 1 by {
        assert(rest[i] == s[i]);
        assert(s[i] < s[s.len() - 1]);
    }
    assert(rises(rest)) by {
        assert forall|i: int, j: int| 0 <= i < j < rest.len() implies rest[i] < rest[j] by {
            assert(rest[i] == s[i] && rest[j] == s[j]);
        }
    }
}

/// Only the empty list writes zero.
pub proof fn lemma_squares_to_zero(s: Seq<u32>, max: nat)
    requires
        squares_to(s, 0, max),
    ensures
        s.len() == 0,
{
    if s.len() > 0 {
        assert(s[s.len() - 1] >= 1);
        assert((s.last() as nat) * (s.last() as nat) >= 1) by (nonlinear_arith)
            requires
                s.last() >= 1,
        ;
    }
}

/// A way to write a number with smaller numbers, and then a larger number,
/// is a way to write the sum.
pub proof fn lemma_with_largest(rest: Seq<u32>, left: nat, i: u32, max: nat)
    requires
        squares_to(rest, left, (i - 1) as nat),
        1 <= i <= max,
    ensures
        squares_to(rest.push(i), left + (i as nat) * (i as nat), max),
{
    let s = rest.push(i);
    assert(s.drop_last() =~= rest);
    assert(rises(s)) by {
        assert forall|a: int, b: int| 0 <= a < b < s.len() implies s[a] < s[b] by {
            if b < rest.len() {
                assert(s[a] == rest[a] && s[b] == rest[b]);
            } else {
                assert(s[a] == rest[a]);
            }
        }
    }
    assert forall|k: int| 0 <= k < s.len() implies 1 <= #[trigger] s[k] <= max by {
        if k < rest.len() {
            assert(s[k] == rest[k]);
        }
    }
}

/// Finds the way to write `goal` as a sum of squares of different numbers
/// from one to `max` that uses the largest numbers, if there is a way.
pub fn search_squares(goal: u64, max: u32) -> (found: Option<Vec<u32>>)
    requires
        goal >= 1,
    ensures
        match found {
            Some(numbers) => best_squares_to(numbers@, goal as nat, max as nat),
            None => no_squares_to(goal as nat, max as nat),
        },
    decreases max,
{
    let mut i: u32 = max;
    while i >= 1
        invariant
            0 <= i <= max,
            goal >= 1,
            forall|s: Seq<u32>| #[trigger]
                squares_to(s, goal as nat, max as nat) ==> s.len() > 0 && s.last() <= i,
        decreases i,
    {
        assert((i as nat) * (i as nat) <= 0xFFFF_FFFF * 0xFFFF_FFFF) by (nonlinear_arith)
            requires
                i <= 0xFFFF_FFFF,
        ;
        let square: u64 = (i as u64) * (i as u64);
        assert(square == (i as nat) * (i as nat));
        if goal >= square {
            let left: u64 = goal - square;
            if left == 0 {
                let mut numbers: Vec<u32> = Vec::new();
                numbers.push(i);
                proof {
                    assert(numbers@ =~= Seq::<u32>::empty().push(i));
                    assert(squares_to(Seq::<u32>::empty(), 0, (i - 1) as nat));
                    lemma_with_largest(Seq::<u32>::empty(), 0, i, max as nat);
                    assert forall|s: Seq<u32>| #[trigger]
                        squares_to(s, goal as nat, max as nat) implies at_most(s, numbers@) by {
                        assert(s.len() > 0 && s.last() <= i);
                        assert(numbers@.len() == 1 && numbers@.last() == i);
                        if s.last() == i {
                            lemma_without_largest(s, goal as nat, max as nat);
                            lemma_squares_to_zero(s.drop_last(), (i - 1) as nat);
                            assert(at_most(s.drop_last(), numbers@.drop_last()));
                        }
                    }
                }
                return Some(numbers);
            }
            match search_squares(left, i - 1) {
                Some(rest) => {
                    let mut numbers = rest;
                    let ghost smaller = numbers@;
                    numbers.push(i);
                    proof {
                        lemma_with_largest(smaller, left as nat, i, max as nat);
                        assert(numbers@.drop_last() =~= smaller);
                        assert forall|s: Seq<u32>| #[trigger]
                            squares_to(s, goal as nat, max as nat) implies at_most(
                            s,
                            numbers@,
                        ) by {
                            assert(s.len() > 0 && s.last() <= i);
                            assert(numbers@.len() > 0 && numbers@.last() == i);
                            if s.last() == i {
                                lemma_without_largest(s, goal as nat, max as nat);
                                assert(squares_to(s.drop_last(), left as nat, (i - 1) as nat));
                                assert(at_most(s.drop_last(), smaller));
                            }
                        }
                    }
                    return Some(numbers);
                },
                None => {
                    proof {
                        assert forall|s: Seq<u32>| #[trigger]
                            squares_to(s, goal as nat, max as nat) implies s.len() > 0 && s.last()
                            <= i - 1 by {
                            if s.last() == i {
                                lemma_without_largest(s, goal as nat, max as nat);
                                assert(squares_to(s.drop_last(), left as nat, (i - 1) as nat));
                            }
                        }
                    }
                },
            }
        } else {
            proof {
                assert forall|s: Seq<u32>| #[trigger]
                    squares_to(s, goal as nat, max as nat) implies s.len() > 0 && s.last() <= i
                    - 1 by {
                    if s.last() == i {
                        lemma_without_largest(s, goal as nat, max as nat);
                    }
                }
            }
        }
        i -= 1;
    }
    proof {
        assert forall|s: Seq<u32>| !#[trigger] squares_to(s, goal as nat, max as nat) by {
            if squares_to(s, goal as nat, max as nat) {
                assert(s[s.len() - 1] >= 1);
            }
        }
    }
    None
}

/// Writes the square of `n` as a sum of squares of different numbers smaller
/// than `n`, smallest first. Of all the ways it gives the one with the
/// largest numbers; `None` where there is no way.
pub fn decompose(n: u32) -> (found: Option<Vec<u32>>)
    requires
        n >= 1,
    ensures
        match found {
            Some(numbers) => best_squares_to(numbers@, (n as nat) * (n as nat), (n - 1) as nat),
            None => no_squares_to((n as nat) * (n as nat), (n - 1) as nat),
        },
{
    assert((n as nat) * (n as nat) <= 0xFFFF_FFFF * 0xFFFF_FFFF) by (nonlinear_arith)
        requires
            n <= 0xFFFF_FFFF,
    ;
    let goal: u64 = (n as u64) * (n as u64);
    assert(goal >= 1) by (nonlinear_arith)
        requires
            goal == n * n,
            n >= 1,
    ;
    search_squares(goal, n - 1)
}


/// What is left of `total` when the squares of the numbers from `from` down
/// to one are taken off it in turn, each where it still fits.
pub open spec fn left_after(total: nat, from: nat) -> nat
    decreases from,
{
    if from == 0 {
        total
    } else if total >= from * from {
        left_after((total - from * from) as nat, (from - 1) as nat)
    } else {
        left_after(total, (from - 1) as nat)
    }
}

/// The numbers from `from` down to one whose squares are taken off `total`
/// in turn, each where it still fits; largest first.
pub open spec fn taken_from(total: nat, from: nat) -> Seq<u32>
    decreases from,
{
    if from == 0 {
        Seq::empty()
    } else if total >= from * from {
        seq![from as u32] + taken_from((total - from * from) as nat, (from - 1) as nat)
    } else {
        taken_from(total, (from - 1) as nat)
    }
}

/// Whether the numbers of the list never fall from one to the next.
pub open spec fn in_order(s: Seq<u32>) -> bool {
    forall|i: int, j: int| 0 <= i <= j < s.len() ==> s[i] <= s[j]
}

/// `slice::sort` on a vector of numbers: afterwards the vector holds the same
/// numbers, each as often as before, and they never fall from one to the
/// next.
#[verifier::external_body]
pub(crate) fn sort_numbers(numbers: &mut Vec<u32>)
    ensures
        final(numbers)@.to_multiset() == old(numbers)@.to_multiset(),
        in_order(final(numbers)@),
{
    numbers.sort();
}

/// Takes the squares of the numbers from `starting_point` down to one off
/// the square of `n`, each where it still fits, and where nothing is left
/// gives the numbers taken together with those of `curr`, in order.
pub fn decompose_starting_from(n: u32, starting_point: u32, curr: Vec<u32>) -> (found: Option<
    Vec<u32>,
>)
    ensures
        match found {
            Some(numbers) => {
                &&& left_after((n as nat) * (n as nat), starting_point as nat) == 0
                &&& in_order(numbers@)
                &&& numbers@.to_multiset() == (curr@ + taken_from(
                    (n as nat) * (n as nat),
                    starting_point as nat,
                )).to_multiset()
            },
            None => left_after((n as nat) * (n as nat), starting_point as nat) != 0,
        },
{
    assert((n as nat) * (n as nat) <= 0xFFFF_FFFF * 0xFFFF_FFFF) by (nonlinear_arith)
        requires
            n <= 0xFFFF_FFFF,
    ;
    let mut curr_total: u64 = (n as u64) * (n as u64);
    let mut output = curr;
    let ghost goal = (n as nat) * (n as nat);
    let ghost mut so_far: Seq<u32> = Seq::empty();
    let mut i: u32 = starting_point;
    assert(curr@ + so_far =~= curr@);
    assert(so_far + taken_from(goal, starting_point as nat) =~= taken_from(
        goal,
        starting_point as nat,
    ));
    while i >= 1
        invariant
            i <= starting_point,
            output@ == curr@ + so_far,
            so_far + taken_from(curr_total as nat, i as nat) == taken_from(
                goal,
                starting_point as nat,
            ),
            left_after(curr_total as nat, i as nat) == left_after(goal, starting_point as nat),
        decreases i,
    {
        assert((i as nat) * (i as nat) <= 0xFFFF_FFFF * 0xFFFF_FFFF) by (nonlinear_arith)
            requires
                i <= 0xFFFF_FFFF,
        ;
        let square: u64 = (i as u64) * (i as u64);
        if curr_total >= square {
            proof {
                let rest = taken_from((curr_total - square) as nat, (i - 1) as nat);
                assert(so_far.push(i) + rest =~= so_far + (seq![i] + rest));
                so_far = so_far.push(i);
            }
            curr_total -= square;
            output.push(i);
            assert(output@ =~= curr@ + so_far);
        }
        i -= 1;
    }
    assert(so_far + Seq::<u32>::empty() =~= so_far);
    if curr_total == 0 {
        sort_numbers(&mut output);
        Some(output)
    } else {
        None
    }
}

} // verus!
