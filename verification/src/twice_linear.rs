//! The sequence that begins with one and holds, for each of its members `x`,
//! also `2x + 1` and `3x + 1`, in growing order. A number that is reached in
//! two ways stands in it twice.

use vstd::prelude::*;

verus! {

/// The position at which `x` enters a list that falls from its start to its
/// end: behind every member that is at least `x`.
pub open spec fn slot(s: Seq<nat>, x: nat) -> int
    decreases s.len(),
{
    if s.len() == 0 || s[0] < x {
        0
    } else {
        1 + slot(s.skip(1), x)
    }
}

/// The falling list with `x` entered in its place.
pub open spec fn entered(s: Seq<nat>, x: nat) -> Seq<nat> {
    s.insert(slot(s, x), x)
}

/// The numbers that wait to enter the sequence after `k` members have been
/// taken, largest first, together with the next member: the smallest of
/// them, which stands at the end.
pub open spec fn waiting(k: nat) -> Seq<nat>
    decreases k,
{
    if k == 0 {
        seq![1nat]
    } else {
        let before = waiting((k - 1) as nat);
        let current = before.last();
        entered(entered(before.drop_last(), 2 * current + 1), 3 * current + 1)
    }
}

/// The member of the sequence at position `k`, counted from zero.
pub open spec fn term(k: nat) -> nat {
    waiting(k).last()
}

/// Whether the list falls, or stays level, from each member to the next.
pub open spec fn falls(s: Seq<nat>) -> bool {
    forall|i: int, j: int| 0 <= i <= j < s.len() ==> s[i] >= s[j]
}

/// A place in the list is within it.
pub proof fn lemma_slot_bound(s: Seq<nat>, x: nat)
    ensures
        0 <= slot(s, x) <= s.len(),
        forall|i: int| 0 <= i < slot(s, x) ==> s[i] >= x,
        falls(s) ==> forall|i: int| slot(s, x) <= i < s.len() ==> s[i] < x,
    decreases s.len(),
{
    if !(s.len() == 0 || s[0] < x) {
        lemma_slot_bound(s.skip(1), x);
        assert forall|i: int| 0 <= i < slot(s, x) implies s[i] >= x by {
            if i > 0 {
                assert(s.skip(1)[i - 1] == s[i]);
            }
        }
        if falls(s) {
            assert(falls(s.skip(1))) by {
                assert forall|i: int, j: int| 0 <= i <= j < s.skip(1).len() implies s.skip(1)[i]
                    >= s.skip(1)[j] by {
                    assert(s.skip(1)[i] == s[i + 1]);
                    assert(s.skip(1)[j] == s[j + 1]);
                }
            }
            assert forall|i: int| slot(s, x) <= i < s.len() implies s[i] < x by {
                assert(s.skip(1)[i - 1] == s[i]);
            }
        }
    } else if s.len() > 0 && falls(s) {
        assert forall|i: int| 0 <= i < s.len() implies s[i] < x by {
            assert(s[0] >= s[i]);
        }
    }
}

/// A list that falls still falls when a number has entered in its place.
pub proof fn lemma_entered_falls(s: Seq<nat>, x: nat)
    requires
        falls(s),
    ensures
        falls(entered(s, x)),
        entered(s, x).len() == s.len() + 1,
{
    lemma_slot_bound(s, x);
    let p = slot(s, x);
    let t = entered(s, x);
    assert forall|i: int, j: int| 0 <= i <= j < t.len() implies t[i] >= t[j] by {
        if j < p {
            assert(t[i] == s[i] && t[j] == s[j]);
        } else if j == p {
            if i < p {
                assert(t[i] == s[i]);
            }
        } else if i < p {
            assert(t[i] == s[i] && t[j] == s[j - 1]);
        } else if i == p {
            assert(t[j] == s[j - 1]);
        } else {
            assert(t[i] == s[i - 1] && t[j] == s[j - 1]);
        }
    }
}

/// The waiting numbers fall, there is always one of them, and none is
/// smaller than the member just taken: the sequence never falls.
pub proof fn lemma_waiting(k: nat)
    ensures
        falls(waiting(k)),
        waiting(k).len() == k + 1,
        term(k) >= 1,
        k >= 1 ==> term(k) >= term((k - 1) as nat),
    decreases k,
{
    if k > 0 {
        lemma_waiting((k - 1) as nat);
        let before = waiting((k - 1) as nat);
        let current = before.last();
        let rest = before.drop_last();
        assert(falls(rest)) by {
            assert forall|i: int, j: int| 0 <= i <= j < rest.len() implies rest[i] >= rest[j] by {
                assert(rest[i] == before[i] && rest[j] == before[j]);
            }
        }
        let one = entered(rest, 2 * current + 1);
        lemma_entered_falls(rest, 2 * current + 1);
        lemma_entered_falls(one, 3 * current + 1);
        lemma_slot_bound(rest, 2 * current + 1);
        lemma_slot_bound(one, 3 * current + 1);
        let two = waiting(k);
        assert(two == entered(one, 3 * current + 1));
        assert forall|i: int| 0 <= i < one.len() implies one[i] >= current by {
            let p = slot(rest, 2 * current + 1);
            if i < p {
                assert(one[i] == rest[i]);
                assert(rest[i] == before[i]);
                assert(before[i] >= before[before.len() - 1]);
            } else if i > p {
                assert(one[i] == rest[i - 1]);
                assert(rest[i - 1] == before[i - 1]);
                assert(before[i - 1] >= before[before.len() - 1]);
            }
        }
        let q = slot(one, 3 * current + 1);
        let last = two.len() - 1;
        if last == q {
        } else if last < q {
            assert(two[last] == one[last]);
        } else {
            assert(two[last] == one[last - 1]);
        }
    }
}

/// What a list of numbers holds.
pub open spec fn naturals(v: Seq<u32>) -> Seq<nat> {
    v.map_values(|x: u32| x as nat)
}

/// Whether the first `size` members of the sequence, doubled and tripled and
/// one added, can be counted in 32 bits.
pub open spec fn in_reach(size: nat) -> bool {
    forall|k: nat| k < size ==> 3 * #[trigger] term(k) + 1 <= u32::MAX
}

fn enter(list: &mut Vec<u32>, x: u32)
    ensures
        naturals(final(list)@) == entered(naturals(old(list)@), x as nat),
{
    let ghost s = naturals(list@);
    let mut j: usize = 0;
    assert(s.skip(0) =~= s);
    while j < list.len() && list[j] >= x
        invariant
            j <= list.len(),
            s == naturals(list@),
            list@ == old(list)@,
            slot(s, x as nat) == j + slot(s.skip(j as int), x as nat),
        decreases list.len() - j,
    {
        assert(s.skip(j as int)[0] == s[j as int]);
        assert(s.skip(j as int).skip(1) =~= s.skip(j + 1));
        j += 1;
    }
    proof {
        if j < list.len() {
            assert(s.skip(j as int)[0] == s[j as int]);
        }
        assert(slot(s, x as nat) == j);
    }
    list.insert(j, x);
    assert(naturals(list@) =~= entered(s, x as nat));
}

/// The first `size` members of the sequence.
pub fn twice_linear(size: usize) -> (processed: Vec<u32>)
    requires
        in_reach(size as nat),
    ensures
        processed@.len() == size,
        forall|k: int| 0 <= k < size ==> #[trigger] processed@[k] == term(k as nat),
{
    let mut processed: Vec<u32> = Vec::new();
    let mut unprocessed: Vec<u32> = Vec::new();
    let mut current: u32 = 1;
    assert(naturals(unprocessed@).push(current as nat) =~= waiting(0));
    while processed.len() < size
        invariant
            processed@.len() <= size,
            in_reach(size as nat),
            naturals(unprocessed@).push(current as nat) == waiting(processed@.len()),
            forall|k: int| 0 <= k < processed@.len() ==> #[trigger] processed@[k] == term(k as nat),
        decreases size - processed.len(),
    {
        let ghost k = processed@.len();
        proof {
            assert(term(k) == current);
            assert(3 * term(k) + 1 <= u32::MAX);
            assert(waiting(k).drop_last() =~= naturals(unprocessed@));
            lemma_waiting(k + 1);
        }
        processed.push(current);
        enter(&mut unprocessed, current * 2 + 1);
        enter(&mut unprocessed, current * 3 + 1);
        assert(naturals(unprocessed@) == waiting(k + 1));
        match unprocessed.pop() {
            Some(next) => {
                current = next;
                assert(naturals(unprocessed@).push(current as nat) =~= waiting(k + 1));
            },
            None => {},
        }
    }
    processed
}

/// The member of the sequence at position `u`, counted from zero.
pub fn twice_linear_at(u: usize) -> (member: u32)
    requires
        u < usize::MAX,
        in_reach((u + 1) as nat),
    ensures
        member == term(u as nat),
{
    let mut members = twice_linear(u + 1);
    match members.pop() {
        Some(member) => member,
        None => 1,
    }
}

} // verus!
