//! The fewest steps from one to a number, where a step adds one or doubles.

use vstd::prelude::*;

verus! {

/// The smaller of two optional counts, where a missing count loses.
pub open spec fn fewer(a: Option<nat>, b: Option<nat>) -> Option<nat> {
    match (a, b) {
        (Some(x), Some(y)) => if x <= y {
            Some(x)
        } else {
            Some(y)
        },
        (Some(x), None) => Some(x),
        (None, Some(y)) => Some(y),
        (None, None) => None,
    }
}

/// The fewest steps that lead from `cur` to `goal`, where a step adds one or
/// doubles; `None` where no steps lead there.
pub open spec fn fewest_steps(cur: nat, goal: nat) -> Option<nat>
    decreases goal - cur,
{
    if cur == goal {
        Some(0)
    } else if cur > goal || cur == 0 {
        None
    } else {
        let by_doubling = if cur * 2 <= goal {
            fewest_steps(cur * 2, goal)
        } else {
            None
        };
        match fewer(fewest_steps(cur + 1, goal), by_doubling) {
            Some(steps) => Some(steps + 1),
            None => None,
        }
    }
}

/// Steps can always be had by adding one, so their number is at most the
/// distance.
pub proof fn lemma_fewest_steps_bound(cur: nat, goal: nat)
    requires
        1 <= cur <= goal,
    ensures
        fewest_steps(cur, goal) is Some,
        fewest_steps(cur, goal).unwrap() <= goal - cur,
    decreases goal - cur,
{
    if cur < goal {
        lemma_fewest_steps_bound(cur + 1, goal);
        if cur * 2 <= goal {
            lemma_fewest_steps_bound(cur * 2, goal);
        }
    }
}

fn recursive_helper(cur: u64, goal: u64) -> (steps: Option<u64>)
    requires
        cur >= 1,
    ensures
        match steps {
            Some(s) => fewest_steps(cur as nat, goal as nat) == Some(s as nat),
            None => fewest_steps(cur as nat, goal as nat).is_none(),
        },
    decreases goal - cur,
{
    if cur == goal {
        Some(0)
    } else if cur > goal {
        None
    } else {
        proof {
            lemma_fewest_steps_bound((cur + 1) as nat, goal as nat);
        }
        let by_adding = recursive_helper(cur + 1, goal);
        let by_doubling = if cur > goal / 2 {
            None
        } else {
            proof {
                lemma_fewest_steps_bound((cur * 2) as nat, goal as nat);
            }
            recursive_helper(cur * 2, goal)
        };
        match (by_adding, by_doubling) {
            (Some(x), Some(y)) => if x <= y {
                Some(x + 1)
            } else {
                Some(y + 1)
            },
            (Some(x), None) => Some(x + 1),
            (None, Some(y)) => Some(y + 1),
            (None, None) => None,
        }
    }
}

/// The fewest steps from one to `num`, found by trying every way. There is
/// none to zero.
pub fn shortest_step_exhaustive_recurse(num: u64) -> (steps: Option<u64>)
    ensures
        match steps {
            Some(s) => fewest_steps(1, num as nat) == Some(s as nat),
            None => fewest_steps(1, num as nat).is_none(),
        },
        steps.is_none() <==> num == 0,
{
    proof {
        if num >= 1 {
            lemma_fewest_steps_bound(1, num as nat);
        }
    }
    recursive_helper(1, num)
}


/// Where doubling overshoots, only adding one is left.
pub proof fn lemma_only_adding(cur: nat, goal: nat)
    requires
        1 <= cur <= goal,
        cur * 2 > goal,
    ensures
        fewest_steps(cur, goal) == Some((goal - cur) as nat),
    decreases goal - cur,
{
    if cur < goal {
        lemma_only_adding(cur + 1, goal);
    }
}

/// To an odd number the last step adds one: the way there is one step longer
/// than the way to the number before it.
pub proof fn lemma_odd_goal(cur: nat, goal: nat)
    requires
        1 <= cur < goal,
        goal % 2 == 1,
    ensures
        fewest_steps(cur, (goal - 1) as nat) is Some,
        fewest_steps(cur, goal) == Some(fewest_steps(cur, (goal - 1) as nat).unwrap() + 1),
    decreases goal - cur,
{
    let before = (goal - 1) as nat;
    lemma_fewest_steps_bound(cur, before);
    if cur < before {
        lemma_odd_goal(cur + 1, goal);
        lemma_fewest_steps_bound(cur + 1, before);
        if cur * 2 <= goal {
            assert(cur * 2 < goal);
            lemma_odd_goal(cur * 2, goal);
            lemma_fewest_steps_bound(cur * 2, before);
        }
    }
}

/// To an even number the last step may as well double: the way there is one
/// step longer than the way to its half.
pub proof fn lemma_even_goal(cur: nat, half: nat)
    requires
        1 <= cur <= half,
    ensures
        fewest_steps(cur, half) is Some,
        fewest_steps(cur, half * 2) == Some(fewest_steps(cur, half).unwrap() + 1),
    decreases half - cur,
{
    lemma_fewest_steps_bound(cur, half);
    lemma_fewest_steps_bound(cur, half * 2);
    if cur < half {
        lemma_even_goal(cur + 1, half);
        lemma_fewest_steps_bound(cur + 1, half);
        if cur * 2 <= half {
            lemma_even_goal(cur * 2, half);
        } else {
            lemma_only_adding(cur * 2, half * 2);
        }
    } else {
        lemma_fewest_steps_bound(cur + 1, half * 2);
    }
}

/// The fewest steps from one to `num`, found by walking back from `num`:
/// halving where it is even, taking one off where it is odd. There is none to
/// zero.
pub fn shortest_step_count_down(num: u64) -> (steps: Option<u64>)
    ensures
        match steps {
            Some(s) => fewest_steps(1, num as nat) == Some(s as nat),
            None => fewest_steps(1, num as nat).is_none(),
        },
        steps.is_none() <==> num == 0,
    decreases num,
{
    if num == 0 {
        None
    } else if num == 1 {
        Some(0)
    } else if num % 2 == 0 {
        proof {
            lemma_count_down_is_fewest(num as nat);
            lemma_fewest_steps_bound(1, (num / 2) as nat);
        }
        match shortest_step_count_down(num / 2) {
            Some(steps) => Some(1 + steps),
            None => None,
        }
    } else {
        proof {
            lemma_count_down_is_fewest(num as nat);
            lemma_fewest_steps_bound(1, (num - 1) as nat);
        }
        match shortest_step_count_down(num - 1) {
            Some(steps) => Some(1 + steps),
            None => None,
        }
    }
}

/// Walking back from the number finds the fewest steps, as trying every way
/// does.
pub proof fn lemma_count_down_is_fewest(num: nat)
    requires
        num >= 2,
    ensures
        fewest_steps(1, num) == if num % 2 == 0 {
            Some(fewest_steps(1, num / 2).unwrap() + 1)
        } else {
            Some(fewest_steps(1, (num - 1) as nat).unwrap() + 1)
        },
{
    if num % 2 == 0 {
        lemma_even_goal(1, num / 2);
    } else {
        lemma_odd_goal(1, num);
    }
}

} // verus!
