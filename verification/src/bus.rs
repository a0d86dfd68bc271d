//! Counting the riders left on a bus after its stops.

use vstd::prelude::*;

verus! {

/// The riders on the bus after its first `n` stops, where at each stop the
/// first number of the pair gets on and then the second gets off; `None` once
/// more riders have left at a stop than were on the bus.
pub open spec fn riders_after(stops: Seq<(u32, u32)>, n: nat) -> Option<nat>
    decreases n,
{
    if n == 0 {
        Some(0)
    } else {
        match riders_after(stops, (n - 1) as nat) {
            None => None,
            Some(riders) => {
                let (on, off) = stops[n - 1];
                if off > riders + on {
                    None
                } else {
                    Some((riders + on - off) as nat)
                }
            },
        }
    }
}

/// Whether the number of riders, taken just after boarding at each stop, can
/// be counted in 32 bits.
pub open spec fn riders_countable(stops: Seq<(u32, u32)>) -> bool {
    forall|k: int|
        0 <= k < stops.len() ==> match #[trigger] riders_after(stops, k as nat) {
            Some(riders) => riders + stops[k].0 <= u32::MAX,
            None => true,
        }
}

/// Once riders are missing, they stay missing.
pub proof fn lemma_riders_missing(stops: Seq<(u32, u32)>, n: nat, m: nat)
    requires
        n <= m,
        riders_after(stops, n).is_none(),
    ensures
        riders_after(stops, m).is_none(),
    decreases m,
{
    if n < m {
        lemma_riders_missing(stops, n, (m - 1) as nat);
    }
}

/// The riders left on the bus after all its stops, or a complaint where more
/// riders left at some stop than were on the bus.
pub fn riders_left(bus_stops: &[(u32, u32)]) -> (left: Result<u32, &'static str>)
    requires
        riders_countable(bus_stops@),
    ensures
        match left {
            Ok(riders) => riders_after(bus_stops@, bus_stops@.len()) == Some(riders as nat),
            Err(complaint) => riders_after(bus_stops@, bus_stops@.len()).is_none() && complaint@
                == "Somehow more people left the bus than got on"@,
        },
{
    let mut sum: u32 = 0;
    let mut i: usize = 0;
    while i < bus_stops.len()
        invariant
            i <= bus_stops.len(),
            riders_countable(bus_stops@),
            riders_after(bus_stops@, i as nat) == Some(sum as nat),
        decreases bus_stops.len() - i,
    {
        let (on, off) = bus_stops[i];
        assert(riders_after(bus_stops@, i as nat) == Some(sum as nat));
        let new_sum = sum + on;
        if off > new_sum {
            proof {
                assert(riders_after(bus_stops@, (i + 1) as nat).is_none());
                lemma_riders_missing(bus_stops@, (i + 1) as nat, bus_stops@.len());
            }
            return Err("Somehow more people left the bus than got on");
        }
        sum = new_sum - off;
        i += 1;
    }
    Ok(sum)
}

} // verus!
