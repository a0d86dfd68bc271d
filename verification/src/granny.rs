//! Travel distances between towns that lie on concentric circles around a
//! home point, and the cost of a round trip that visits friends in order.
//!
//! Distances are whole numbers of a unit that the caller chooses (metres,
//! thousandths of a mile, ...). Each leg between neighbouring towns is the
//! square root of a difference of squares, rounded down to a whole unit.

use vstd::prelude::*;

verus! {

/// Why a map could not be built or a distance could not be computed.
#[derive(Debug, Clone, Copy, PartialEq, Eq, Structural)]
pub enum RouteError {
    /// The home town was listed with a distance other than zero.
    InvalidHomeDistance,
    /// A distance to home was asked for a town that was never registered.
    UnknownTown,
    /// A distance around the radius was asked for a place that is not a
    /// registered town.
    UnknownLocation,
    /// A friend to visit has no entry in the table of friends.
    UnknownFriend,
    /// A town is nearer to home than the town registered just before it, so
    /// the leg between them would be the root of a negative number.
    InvalidRightAngleConfiguration,
}

impl RouteError {
    /// What the error says in words.
    pub open spec fn words(self) -> Seq<char> {
        match self {
            RouteError::InvalidHomeDistance => "Home town must be 0 miles away from itself"@,
            RouteError::UnknownTown => "We don't know where this town is"@,
            RouteError::UnknownLocation => "We don't know where this location is"@,
            RouteError::UnknownFriend => "We don't know where this friend lives"@,
            RouteError::InvalidRightAngleConfiguration =>
                "This map is invalid because of the right angle rule"@,
        }
    }

    /// What the error says in words.
    pub fn message(&self) -> (words: &'static str)
        ensures
            words@ == self.words(),
    {
        match self {
            RouteError::InvalidHomeDistance => "Home town must be 0 miles away from itself",
            RouteError::UnknownTown => "We don't know where this town is",
            RouteError::UnknownLocation => "We don't know where this location is",
            RouteError::UnknownFriend => "We don't know where this friend lives",
            RouteError::InvalidRightAngleConfiguration =>
                "This map is invalid because of the right angle rule",
        }
    }
}

/// A place on the map: the home point or a town known by its name.
#[derive(Debug)]
pub enum Location {
    Home,
    Town(String),
}

/// What a `Location` stands for: home, or a town's name as a sequence of
/// characters. Two places are equal exactly when they are both home or are
/// towns of the same name.
pub enum Place {
    Home,
    Town(Seq<char>),
}

impl View for Location {
    type V = Place;

    open spec fn view(&self) -> Place {
        match self {
            Location::Home => Place::Home,
            Location::Town(name) => Place::Town(name@),
        }
    }
}

impl Location {
    /// Whether two locations are the same place.
    pub fn same_place(&self, other: &Location) -> (same: bool)
        ensures
            same == (self@ == other@),
    {
        match (self, other) {
            (Location::Home, Location::Home) => true,
            (Location::Town(a), Location::Town(b)) => a.eq(b),
            _ => false,
        }
    }
}

/// Whether `r` is the square root of `n`, rounded down.
pub open spec fn is_floor_sqrt(n: nat, r: nat) -> bool {
    r * r <= n < (r + 1) * (r + 1)
}

/// The largest natural number whose square does not exceed `n`.
pub open spec fn floor_sqrt(n: nat) -> nat {
    choose|r: nat| is_floor_sqrt(n, r)
}

/// There is only one candidate for the rounded-down square root.
pub proof fn lemma_floor_sqrt_unique(n: nat, r: nat)
    requires
        is_floor_sqrt(n, r),
    ensures
        floor_sqrt(n) == r,
{
    let s = floor_sqrt(n);
    assert(is_floor_sqrt(n, s));
    if s < r {
        assert((s + 1) * (s + 1) <= r * r) by (nonlinear_arith)
            requires
                s + 1 <= r,
        ;
    } else if r < s {
        assert((r + 1) * (r + 1) <= s * s) by (nonlinear_arith)
            requires
                r + 1 <= s,
        ;
    }
}

/// Computes the rounded-down square root by bisection.
pub fn integer_sqrt(n: u64) -> (r: u32)
    ensures
        r == floor_sqrt(n as nat),
{
    let mut lo: u64 = 0;
    let mut hi: u64 = 0x1_0000_0000;
    assert(0x1_0000_0000 * 0x1_0000_0000 > n) by (nonlinear_arith)
        requires
            n <= u64::MAX,
    ;
    while hi - lo > 1
        invariant
            lo < hi <= 0x1_0000_0000,
            lo * lo <= n < hi * hi,
        decreases hi - lo,
    {
        let mid: u64 = lo + (hi - lo) / 2;
        assert(mid * mid <= 0xFFFF_FFFF * 0xFFFF_FFFF) by (nonlinear_arith)
            requires
                mid <= 0xFFFF_FFFF,
        ;
        if mid * mid <= n {
            lo = mid;
        } else {
            hi = mid;
        }
    }
    proof {
        assert(hi == lo + 1);
        lemma_floor_sqrt_unique(n as nat, lo as nat);
    }
    lo as u32
}


/// Whether the list holds a town of this name.
pub open spec fn holds(towns: Seq<(Seq<char>, u32)>, name: Seq<char>) -> bool {
    exists|i: int| 0 <= i < towns.len() && (#[trigger] towns[i]).0 == name
}

/// Whether `i` is the first position of the list at which a town of this name
/// stands.
pub open spec fn first_of(towns: Seq<(Seq<char>, u32)>, name: Seq<char>, i: int) -> bool {
    &&& 0 <= i < towns.len()
    &&& towns[i].0 == name
    &&& forall|j: int| 0 <= j < i ==> (#[trigger] towns[j]).0 != name
}

/// The position of a town that the list holds.
pub open spec fn place_of(towns: Seq<(Seq<char>, u32)>, name: Seq<char>) -> int {
    choose|i: int| first_of(towns, name, i)
}

/// The mathematical content of a `TownMap`: the known towns in the order in
/// which they were first registered, each with its distance from home, and
/// the name under which the home point is recognised.
///
/// A town's position in `towns` is its place around the radius: neighbours in
/// the sequence are neighbours on the ground. In the chart of a map no two
/// towns share a name, and none has the home town's name.
pub struct Chart {
    pub towns: Seq<(Seq<char>, u32)>,
    pub home: Seq<char>,
}

impl Chart {
    /// Whether no two towns share a name and none has the home town's name.
    pub open spec fn well_formed(self) -> bool {
        &&& forall|i: int, j: int|
            0 <= i < j < self.towns.len() ==> (#[trigger] self.towns[i]).0 != (
            #[trigger] self.towns[j]).0
        &&& !self.knows(self.home)
    }

    /// Whether a town of this name has been registered.
    pub open spec fn knows(self, name: Seq<char>) -> bool {
        holds(self.towns, name)
    }

    /// Whether `i` is the first position at which a town of this name stands.
    pub open spec fn first_at(self, name: Seq<char>, i: int) -> bool {
        first_of(self.towns, name, i)
    }

    /// The position of a registered town around the radius.
    pub open spec fn position(self, name: Seq<char>) -> int {
        place_of(self.towns, name)
    }

    /// The distance from home of a registered town.
    pub open spec fn radius_of(self, name: Seq<char>) -> nat {
        self.towns[self.position(name)].1 as nat
    }

    /// The distance from home of the town at position `i`.
    pub open spec fn radius_at(self, i: int) -> nat {
        self.towns[i].1 as nat
    }

    /// The straight-line distance from a place to home. Home is at distance
    /// zero; a town must have been registered.
    pub open spec fn distance_to_home(self, place: Place) -> Result<nat, RouteError> {
        match place {
            Place::Home => Ok(0),
            Place::Town(name) => if self.knows(name) {
                Ok(self.radius_of(name))
            } else {
                Err(RouteError::UnknownTown)
            },
        }
    }

    /// Whether the step from position `i` to the next obeys the right-angle
    /// rule: the number under the square root is not negative.
    pub open spec fn step_ok(self, i: int) -> bool {
        self.radius_at(i + 1) * self.radius_at(i + 1) >= self.radius_at(i) * self.radius_at(i)
    }

    /// The length of the step from position `i` to the next: the far town's
    /// distance from home is the hypotenuse, the near town's one leg, and the
    /// step the other leg, rounded down.
    pub open spec fn step(self, i: int) -> nat {
        floor_sqrt(
            (self.radius_at(i + 1) * self.radius_at(i + 1) - self.radius_at(i) * self.radius_at(
                i,
            )) as nat,
        )
    }

    /// Whether every step from position `lo` up to position `hi` obeys the
    /// right-angle rule.
    pub open spec fn ladder_ok(self, lo: int, hi: int) -> bool {
        forall|i: int| lo <= i < hi ==> #[trigger] self.step_ok(i)
    }

    /// The sum of the steps from position `lo` up to position `hi`.
    pub open spec fn ladder(self, lo: int, hi: int) -> nat
        decreases hi - lo,
    {
        if hi <= lo {
            0
        } else {
            self.ladder(lo, hi - 1) + self.step(hi - 1)
        }
    }

    /// The distance between two towns along the radius: the sum of the steps
    /// between their positions, whichever of the two comes first.
    pub open spec fn arc_distance(self, from: Place, to: Place) -> Result<nat, RouteError> {
        match (from, to) {
            (Place::Town(a), Place::Town(b)) => if self.knows(a) && self.knows(b) {
                let p = self.position(a);
                let q = self.position(b);
                let lo = if p <= q { p } else { q };
                let hi = if p <= q { q } else { p };
                if self.ladder_ok(lo, hi) {
                    Ok(self.ladder(lo, hi))
                } else {
                    Err(RouteError::InvalidRightAngleConfiguration)
                }
            } else {
                Err(RouteError::UnknownLocation)
            },
            _ => Err(RouteError::UnknownLocation),
        }
    }

    /// The travel distance between two places. Between two towns it is the
    /// distance along the radius, or the way through home where that is
    /// strictly shorter.
    pub open spec fn distance(self, from: Place, to: Place) -> Result<nat, RouteError> {
        match (from, to) {
            (Place::Home, Place::Home) => Ok(0),
            (Place::Town(_), Place::Home) => self.distance_to_home(from),
            (Place::Home, Place::Town(_)) => self.distance_to_home(to),
            (Place::Town(a), Place::Town(b)) => match self.arc_distance(from, to) {
                Err(e) => Err(e),
                Ok(arc) => {
                    let through_home = self.radius_of(a) + self.radius_of(b);
                    if arc > through_home {
                        Ok(through_home)
                    } else {
                        Ok(arc)
                    }
                },
            },
        }
    }

    /// The place that a town's name in raw input stands for.
    pub open spec fn place_named(self, name: Seq<char>) -> Place {
        if name == self.home {
            Place::Home
        } else {
            Place::Town(name)
        }
    }
}

/// Whether the list gives the home town a distance other than zero.
pub open spec fn misplaces_home(pairs: Seq<(Seq<char>, u32)>, home: Seq<char>) -> bool {
    exists|i: int| 0 <= i < pairs.len() && (#[trigger] pairs[i]).0 == home && pairs[i].1 != 0
}

/// The towns that a list registers. An entry that names the home town
/// registers nothing. A name that comes for the first time registers a town
/// behind those registered before; a name that comes again gives its town a
/// new distance and leaves it in its place.
pub open spec fn registered_towns(pairs: Seq<(Seq<char>, u32)>, home: Seq<char>) -> Seq<
    (Seq<char>, u32),
>
    decreases pairs.len(),
{
    if pairs.len() == 0 {
        Seq::empty()
    } else {
        let before = registered_towns(pairs.drop_last(), home);
        if pairs.last().0 == home {
            before
        } else if holds(before, pairs.last().0) {
            before.update(place_of(before, pairs.last().0), pairs.last())
        } else {
            before.push(pairs.last())
        }
    }
}

/// What a list of names and distances holds, name by name.
pub open spec fn pairs_view(pairs: Seq<(String, u32)>) -> Seq<(Seq<char>, u32)> {
    pairs.map_values(|p: (String, u32)| (p.0@, p.1))
}


/// A first position is the position, and the distance that stands there is
/// the town's.
pub proof fn lemma_position_is(chart: Chart, name: Seq<char>, i: int)
    requires
        chart.first_at(name, i),
    ensures
        chart.knows(name),
        chart.position(name) == i,
        chart.radius_of(name) == chart.towns[i].1,
{
    let p = chart.position(name);
    assert(first_of(chart.towns, name, p));
    if p < i {
        assert(chart.towns[p].0 != name);
    } else if i < p {
        assert(chart.towns[i].0 != name);
    }
}

/// A town that the list holds has a first position.
pub proof fn lemma_place_exists(towns: Seq<(Seq<char>, u32)>, name: Seq<char>)
    requires
        holds(towns, name),
    ensures
        first_of(towns, name, place_of(towns, name)),
    decreases towns.len(),
{
    let k = choose|k: int| 0 <= k < towns.len() && (#[trigger] towns[k]).0 == name;
    if exists|j: int| 0 <= j < k && (#[trigger] towns[j]).0 == name {
        let j = choose|j: int| 0 <= j < k && (#[trigger] towns[j]).0 == name;
        let front = towns.take(k);
        assert(front[j] == towns[j]);
        lemma_place_exists(front, name);
        let f = place_of(front, name);
        assert(front[f] == towns[f]);
        assert forall|m: int| 0 <= m < f implies (#[trigger] towns[m]).0 != name by {
            assert(front[m] == towns[m]);
        }
        assert(first_of(towns, name, f));
    } else {
        assert(first_of(towns, name, k));
    }
}

/// The towns that a list registers have names of their own, and none has the
/// home town's name.
pub proof fn lemma_registered_well_formed(pairs: Seq<(Seq<char>, u32)>, home: Seq<char>)
    ensures
        (Chart { towns: registered_towns(pairs, home), home }).well_formed(),
    decreases pairs.len(),
{
    if pairs.len() > 0 {
        lemma_registered_well_formed(pairs.drop_last(), home);
        let before = registered_towns(pairs.drop_last(), home);
        let after = registered_towns(pairs, home);
        let name = pairs.last().0;
        if name == home {
        } else if holds(before, name) {
            lemma_place_exists(before, name);
            let p = place_of(before, name);
            assert forall|i: int, j: int| 0 <= i < j < after.len() implies (#[trigger] after[i]).0
                != (#[trigger] after[j]).0 by {
                assert(after[i].0 == before[i].0);
                assert(after[j].0 == before[j].0);
            }
            if holds(after, home) {
                let k = choose|k: int| 0 <= k < after.len() && (#[trigger] after[k]).0 == home;
                assert(before[k].0 == home);
            }
        } else {
            assert forall|i: int, j: int| 0 <= i < j < after.len() implies (#[trigger] after[i]).0
                != (#[trigger] after[j]).0 by {
                if j < before.len() {
                    assert(after[i] == before[i] && after[j] == before[j]);
                } else {
                    assert(after[i] == before[i]);
                }
            }
            if holds(after, home) {
                let k = choose|k: int| 0 <= k < after.len() && (#[trigger] after[k]).0 == home;
                if k < before.len() {
                    assert(before[k].0 == home);
                }
            }
        }
    }
}

/// Whether `i` is the last position of the list at which this name stands.
pub open spec fn last_of(pairs: Seq<(Seq<char>, u32)>, name: Seq<char>, i: int) -> bool {
    &&& 0 <= i < pairs.len()
    &&& pairs[i].0 == name
    &&& forall|j: int| i < j < pairs.len() ==> (#[trigger] pairs[j]).0 != name
}

/// One more entry of the list leaves every town that was registered in its
/// place, and leaves it its distance unless the entry names it.
pub proof fn lemma_registered_kept(pairs: Seq<(Seq<char>, u32)>, home: Seq<char>, name: Seq<char>)
    requires
        pairs.len() > 0,
        holds(registered_towns(pairs.drop_last(), home), name),
    ensures
        holds(registered_towns(pairs, home), name),
        place_of(registered_towns(pairs, home), name) == place_of(
            registered_towns(pairs.drop_last(), home),
            name,
        ),
        name != pairs.last().0 ==> registered_towns(pairs, home)[place_of(
            registered_towns(pairs, home),
            name,
        )].1 == registered_towns(pairs.drop_last(), home)[place_of(
            registered_towns(pairs.drop_last(), home),
            name,
        )].1,
{
    let before = registered_towns(pairs.drop_last(), home);
    let after = registered_towns(pairs, home);
    lemma_registered_well_formed(pairs.drop_last(), home);
    lemma_registered_well_formed(pairs, home);
    lemma_place_exists(before, name);
    let q = place_of(before, name);
    if pairs.last().0 != home && holds(before, pairs.last().0) {
        lemma_place_exists(before, pairs.last().0);
    }
    assert(after[q].0 == name);
    assert(first_of(after, name, q)) by {
        assert forall|j: int| 0 <= j < q implies (#[trigger] after[j]).0 != name by {
            assert(after[j].0 != after[q].0);
        }
    }
    lemma_position_is(Chart { towns: after, home }, name, q);
}

/// The registered towns are those that the list names, but for the home
/// town.
pub proof fn lemma_registered_names(pairs: Seq<(Seq<char>, u32)>, home: Seq<char>, name: Seq<char>)
    ensures
        holds(registered_towns(pairs, home), name) <==> name != home && holds(pairs, name),
    decreases pairs.len(),
{
    let after = registered_towns(pairs, home);
    if pairs.len() > 0 {
        let front = pairs.drop_last();
        let before = registered_towns(front, home);
        lemma_registered_names(front, home, name);
        lemma_registered_well_formed(pairs, home);
        if holds(pairs, name) {
            let i = choose|i: int| 0 <= i < pairs.len() && (#[trigger] pairs[i]).0 == name;
            if i < front.len() {
                assert(front[i].0 == name);
            }
        }
        if holds(front, name) {
            let i = choose|i: int| 0 <= i < front.len() && (#[trigger] front[i]).0 == name;
            assert(pairs[i].0 == name);
        }
        if holds(before, name) {
            lemma_registered_kept(pairs, home, name);
        } else if holds(after, name) {
            let k = choose|k: int| 0 <= k < after.len() && (#[trigger] after[k]).0 == name;
            if pairs.last().0 != home && holds(before, pairs.last().0) {
                lemma_place_exists(before, pairs.last().0);
                let p = place_of(before, pairs.last().0);
                if k != p {
                    assert(before[k].0 == name);
                }
                assert(before[p].0 == pairs.last().0);
            } else if pairs.last().0 != home {
                if k < before.len() {
                    assert(before[k].0 == name);
                }
            }
            assert(name == pairs.last().0);
            assert(pairs[pairs.len() - 1].0 == name);
        } else if name != home && name == pairs.last().0 {
            assert(after[after.len() - 1].0 == name);
        }
    }
}

/// A registered town has the distance of the last entry that names it.
pub proof fn lemma_registered_distance(
    pairs: Seq<(Seq<char>, u32)>,
    home: Seq<char>,
    name: Seq<char>,
    i: int,
)
    requires
        name != home,
        last_of(pairs, name, i),
    ensures
        holds(registered_towns(pairs, home), name),
        registered_towns(pairs, home)[place_of(registered_towns(pairs, home), name)].1
            == pairs[i].1,
    decreases pairs.len(),
{
    let front = pairs.drop_last();
    let before = registered_towns(front, home);
    let after = registered_towns(pairs, home);
    lemma_registered_well_formed(pairs, home);
    if i == pairs.len() - 1 {
        let k = if holds(before, name) {
            lemma_place_exists(before, name);
            place_of(before, name)
        } else {
            before.len() as int
        };
        assert(after[k] == pairs.last());
        assert(first_of(after, name, k)) by {
            assert forall|j: int| 0 <= j < k implies (#[trigger] after[j]).0 != name by {
                assert(after[j].0 != after[k].0);
            }
        }
        lemma_position_is(Chart { towns: after, home }, name, k);
    } else {
        assert(last_of(front, name, i)) by {
            assert(front[i] == pairs[i]);
            assert forall|j: int| i < j < front.len() implies (#[trigger] front[j]).0 != name by {
                assert(front[j] == pairs[j]);
            }
        }
        lemma_registered_distance(front, home, name, i);
        assert(pairs[pairs.len() - 1].0 != name);
        lemma_registered_kept(pairs, home, name);
    }
}

/// Of two registered towns the one that the list names first stands first.
pub proof fn lemma_registered_order(
    pairs: Seq<(Seq<char>, u32)>,
    home: Seq<char>,
    a: Seq<char>,
    b: Seq<char>,
    i: int,
    j: int,
)
    requires
        a != home,
        b != home,
        first_of(pairs, a, i),
        first_of(pairs, b, j),
        i < j,
    ensures
        holds(registered_towns(pairs, home), a),
        holds(registered_towns(pairs, home), b),
        place_of(registered_towns(pairs, home), a) < place_of(registered_towns(pairs, home), b),
    decreases pairs.len(),
{
    let front = pairs.drop_last();
    let before = registered_towns(front, home);
    let after = registered_towns(pairs, home);
    lemma_registered_well_formed(pairs, home);
    lemma_registered_names(front, home, a);
    lemma_registered_names(front, home, b);
    assert(front[i].0 == a);
    lemma_registered_kept(pairs, home, a);
    lemma_place_exists(before, a);
    if j == pairs.len() - 1 {
        if holds(front, b) {
            let k = choose|k: int| 0 <= k < front.len() && (#[trigger] front[k]).0 == b;
            assert(pairs[k].0 == b);
        }
        let k = before.len() as int;
        assert(after[k] == pairs.last());
        assert(first_of(after, b, k)) by {
            assert forall|m: int| 0 <= m < k implies (#[trigger] after[m]).0 != b by {
                assert(after[m].0 != after[k].0);
            }
        }
        lemma_position_is(Chart { towns: after, home }, b, k);
    } else {
        assert(first_of(front, a, i)) by {
            assert forall|m: int| 0 <= m < i implies (#[trigger] front[m]).0 != a by {
                assert(front[m] == pairs[m]);
            }
        }
        assert(first_of(front, b, j)) by {
            assert(front[j] == pairs[j]);
            assert forall|m: int| 0 <= m < j implies (#[trigger] front[m]).0 != b by {
                assert(front[m] == pairs[m]);
            }
        }
        lemma_registered_order(front, home, a, b, i, j);
        lemma_registered_kept(pairs, home, b);
    }
}

fn find_town(towns: &Vec<(String, u32)>, name: &String) -> (found: Option<usize>)
    ensures
        match found {
            Some(i) => first_of(pairs_view(towns@), name@, i as int),
            None => !holds(pairs_view(towns@), name@),
        },
{
    let mut i: usize = 0;
    while i < towns.len()
        invariant
            i <= towns.len(),
            forall|j: int| 0 <= j < i ==> (#[trigger] pairs_view(towns@)[j]).0 != name@,
        decreases towns.len() - i,
    {
        if towns[i].0.eq(name) {
            return Some(i);
        }
        i += 1;
    }
    None
}

/// Towns arranged around a home point: each with its straight-line distance
/// from home, in the order in which they were first registered. No two towns
/// share a name, and none has the home town's name.
pub struct TownMap {
    towns: Vec<(String, u32)>,
    home_town_name: String,
}

impl View for TownMap {
    type V = Chart;

    closed spec fn view(&self) -> Chart {
        Chart { towns: pairs_view(self.towns@), home: self.home_town_name@ }
    }
}

impl TownMap {
    #[verifier::type_invariant]
    closed spec fn sound(&self) -> bool {
        self@.well_formed()
    }

    /// Builds the map from a list of town names and distances. An entry that
    /// names the home town registers nothing, and must give distance zero. A
    /// town that is named again keeps its place and takes the later distance.
    pub fn from_vec(vec: Vec<(String, u32)>, home_town_name: &str) -> (made: Result<
        TownMap,
        RouteError,
    >)
        ensures
            match made {
                Ok(map) => {
                    &&& !misplaces_home(pairs_view(vec@), home_town_name@)
                    &&& map@.towns == registered_towns(pairs_view(vec@), home_town_name@)
                    &&& map@.home == home_town_name@
                    &&& map@.well_formed()
                },
                Err(e) => {
                    &&& e == RouteError::InvalidHomeDistance
                    &&& misplaces_home(pairs_view(vec@), home_town_name@)
                },
            },
    {
        let home: String = home_town_name.to_owned();
        let mut towns: Vec<(String, u32)> = Vec::new();
        let ghost pairs = pairs_view(vec@);
        let mut i: usize = 0;
        proof {
            assert(pairs.take(0) =~= Seq::empty());
            assert(pairs_view(towns@) =~= registered_towns(pairs.take(0), home@));
        }
        while i < vec.len()
            invariant
                i <= vec.len(),
                pairs == pairs_view(vec@),
                home@ == home_town_name@,
                pairs_view(towns@) == registered_towns(pairs.take(i as int), home@),
                forall|j: int| 0 <= j < i ==> !((#[trigger] pairs[j]).0 == home@ && pairs[j].1 != 0),
            decreases vec.len() - i,
        {
            let entry = &vec[i];
            let ghost before = pairs_view(towns@);
            proof {
                assert(pairs.take(i + 1).drop_last() =~= pairs.take(i as int));
                assert(pairs.take(i + 1).last() == pairs[i as int]);
                assert(pairs[i as int] == (entry.0@, entry.1));
            }
            if entry.0.eq(&home) {
                if entry.1 != 0 {
                    return Err(RouteError::InvalidHomeDistance);
                }
            } else {
                match find_town(&towns, &entry.0) {
                    Some(place) => {
                        proof {
                            lemma_position_is(
                                Chart { towns: before, home: home@ },
                                entry.0@,
                                place as int,
                            );
                        }
                        towns.set(place, (entry.0.clone(), entry.1));
                        assert(pairs_view(towns@) =~= before.update(
                            place as int,
                            (entry.0@, entry.1),
                        ));
                    },
                    None => {
                        towns.push((entry.0.clone(), entry.1));
                        assert(pairs_view(towns@) =~= before.push((entry.0@, entry.1)));
                    },
                }
            }
            i += 1;
        }
        assert(pairs.take(i as int) =~= pairs);
        proof {
            lemma_registered_well_formed(pairs, home@);
        }
        Ok(TownMap { towns, home_town_name: home })
    }

    /// The number of registered towns.
    pub fn town_count(&self) -> (n: usize)
        ensures
            n == self@.towns.len(),
            self@.well_formed(),
    {
        proof {
            use_type_invariant(self);
        }
        self.towns.len()
    }

    fn find_first(&self, name: &String) -> (found: Option<usize>)
        ensures
            match found {
                Some(i) => self@.first_at(name@, i as int),
                None => !self@.knows(name@),
            },
    {
        find_town(&self.towns, name)
    }

    /// The straight-line distance from a place to home.
    pub fn distance_to_home(&self, from: &Location) -> (found: Result<u32, RouteError>)
        ensures
            match found {
                Ok(d) => self@.distance_to_home(from@) == Ok::<nat, RouteError>(d as nat),
                Err(e) => self@.distance_to_home(from@) == Err::<nat, RouteError>(e),
            },
    {
        match from {
            Location::Home => Ok(0),
            Location::Town(name) => match self.find_first(name) {
                Some(i) => {
                    proof {
                        lemma_position_is(self@, name@, i as int);
                    }
                    Ok(self.towns[i].1)
                },
                None => Err(RouteError::UnknownTown),
            },
        }
    }

    fn radius_at(&self, i: usize) -> (r: u32)
        requires
            i < self@.towns.len(),
        ensures
            r == self@.radius_at(i as int),
    {
        self.towns[i].1
    }

    /// The distance between two towns along the radius: the sum of the legs
    /// between neighbouring towns from the one registered earlier to the one
    /// registered later.
    pub fn distance_around_radius(&self, from: &Location, to: &Location) -> (found: Result<
        u128,
        RouteError,
    >)
        ensures
            match found {
                Ok(d) => self@.arc_distance(from@, to@) == Ok::<nat, RouteError>(d as nat),
                Err(e) => self@.arc_distance(from@, to@) == Err::<nat, RouteError>(e),
            },
    {
        let index_1 = match from {
            Location::Home => { return Err(RouteError::UnknownLocation); },
            Location::Town(name) => match self.find_first(name) {
                Some(i) => {
                    proof {
                        lemma_position_is(self@, name@, i as int);
                    }
                    i
                },
                None => { return Err(RouteError::UnknownLocation); },
            },
        };
        let index_2 = match to {
            Location::Home => { return Err(RouteError::UnknownLocation); },
            Location::Town(name) => match self.find_first(name) {
                Some(i) => {
                    proof {
                        lemma_position_is(self@, name@, i as int);
                    }
                    i
                },
                None => { return Err(RouteError::UnknownLocation); },
            },
        };
        let (start_index, end_index) = if index_1 > index_2 {
            (index_2, index_1)
        } else {
            (index_1, index_2)
        };
        let mut current_distance: u128 = 0;
        let mut i: usize = start_index;
        while i < end_index
            invariant
                start_index <= i <= end_index < self@.towns.len(),
                self@.arc_distance(from@, to@) == if self@.ladder_ok(
                    start_index as int,
                    end_index as int,
                ) {
                    Ok::<nat, RouteError>(self@.ladder(start_index as int, end_index as int))
                } else {
                    Err::<nat, RouteError>(RouteError::InvalidRightAngleConfiguration)
                },
                self@.ladder_ok(start_index as int, i as int),
                current_distance == self@.ladder(start_index as int, i as int),
                current_distance <= (i - start_index) * 0xFFFF_FFFF,
            decreases end_index - i,
        {
            let c: u64 = self.radius_at(i + 1) as u64;
            let a: u64 = self.radius_at(i) as u64;
            assert(c * c <= 0xFFFF_FFFF * 0xFFFF_FFFF && a * a <= c * c || a > c) by (nonlinear_arith)
                requires
                    c <= 0xFFFF_FFFF,
                    a <= 0xFFFF_FFFF,
            ;
            if a > c {
                proof {
                    assert(a * a > c * c) by (nonlinear_arith)
                        requires
                            a > c,
                            c >= 0,
                    ;
                    assert(!self@.step_ok(i as int));
                }
                return Err(RouteError::InvalidRightAngleConfiguration);
            }
            let b_squared: u64 = c * c - a * a;
            let leg = integer_sqrt(b_squared);
            assert(self@.step_ok(i as int));
            assert(leg == self@.step(i as int));
            assert((i - start_index) * 0xFFFF_FFFF + 0xFFFF_FFFF <= 0xFFFF_FFFF_FFFF_FFFF
                * 0xFFFF_FFFF) by (nonlinear_arith)
                requires
                    i - start_index < 0xFFFF_FFFF_FFFF_FFFF,
            ;
            current_distance = current_distance + leg as u128;
            i += 1;
        }
        Ok(current_distance)
    }

    /// The travel distance between two places: between two towns the way
    /// along the radius, or the way through home where that is strictly
    /// shorter.
    pub fn distance(&self, from: &Location, to: &Location) -> (found: Result<u64, RouteError>)
        ensures
            match found {
                Ok(d) => self@.distance(from@, to@) == Ok::<nat, RouteError>(d as nat),
                Err(e) => self@.distance(from@, to@) == Err::<nat, RouteError>(e),
            },
    {
        match (from, to) {
            (Location::Home, Location::Home) => Ok(0),
            (Location::Town(_), Location::Home) => match self.distance_to_home(from) {
                Ok(d) => Ok(d as u64),
                Err(e) => Err(e),
            },
            (Location::Home, Location::Town(_)) => match self.distance_to_home(to) {
                Ok(d) => Ok(d as u64),
                Err(e) => Err(e),
            },
            (Location::Town(_), Location::Town(_)) => {
                let town_to_town_distance = match self.distance_around_radius(from, to) {
                    Ok(d) => d,
                    Err(e) => { return Err(e); },
                };
                let from_home = match self.distance_to_home(from) {
                    Ok(d) => d,
                    Err(e) => { return Err(e); },
                };
                let to_home = match self.distance_to_home(to) {
                    Ok(d) => d,
                    Err(e) => { return Err(e); },
                };
                let home_in_middle_distance: u64 = from_home as u64 + to_home as u64;
                if town_to_town_distance > home_in_middle_distance as u128 {
                    Ok(home_in_middle_distance)
                } else {
                    Ok(town_to_town_distance as u64)
                }
            },
        }
    }

    /// The location that a town's name in raw input stands for: home for the
    /// home town's name, a town for any other.
    pub fn get_location_from_string(&self, name: &str) -> (location: Location)
        ensures
            location@ == self@.place_named(name@),
    {
        let owned: String = name.to_owned();
        if owned.eq(&self.home_town_name) {
            Location::Home
        } else {
            Location::Town(owned)
        }
    }

    /// Builds the table that tells where each friend lives from a list of
    /// friends' names and town names.
    pub fn make_friend_map(&self, input: Vec<(String, String)>) -> (table: FriendMap)
        ensures
            table@ == friend_table(self@, names_view(input@)),
    {
        let mut entries: Vec<(String, Location)> = Vec::new();
        let mut i: usize = 0;
        while i < input.len()
            invariant
                i <= input.len(),
                entries.len() == i,
                forall|j: int|
                    0 <= j < i ==> (#[trigger] entries[j]).0@ == input[j].0@ && entries[j].1@
                        == self@.place_named(input[j].1@),
            decreases input.len() - i,
        {
            let entry = &input[i];
            let location = self.get_location_from_string(entry.1.as_str());
            entries.push((entry.0.clone(), location));
            i += 1;
        }
        let table = FriendMap { entries };
        assert(table@ =~= friend_table(self@, names_view(input@)));
        table
    }
}

/// What a list of pairs of names holds.
pub open spec fn names_view(pairs: Seq<(String, String)>) -> Seq<(Seq<char>, Seq<char>)> {
    pairs.map_values(|p: (String, String)| (p.0@, p.1@))
}

/// The table of friends that a list of friends' names and town names gives on
/// a map: each town's name is resolved to a place.
pub open spec fn friend_table(chart: Chart, pairs: Seq<(Seq<char>, Seq<char>)>) -> Seq<
    (Seq<char>, Place),
> {
    pairs.map_values(|p: (Seq<char>, Seq<char>)| (p.0, chart.place_named(p.1)))
}

/// Whether the table has an entry for this friend.
pub open spec fn has_friend(table: Seq<(Seq<char>, Place)>, friend: Seq<char>) -> bool {
    exists|i: int| 0 <= i < table.len() && (#[trigger] table[i]).0 == friend
}

/// Whether `i` is the last entry of the table for this friend.
pub open spec fn last_entry_for(table: Seq<(Seq<char>, Place)>, friend: Seq<char>, i: int) -> bool {
    &&& 0 <= i < table.len()
    &&& table[i].0 == friend
    &&& forall|j: int| i < j < table.len() ==> (#[trigger] table[j]).0 != friend
}

/// Where a friend lives: the place of the last entry for that friend, if
/// there is one.
pub open spec fn residence(table: Seq<(Seq<char>, Place)>, friend: Seq<char>) -> Option<Place> {
    if has_friend(table, friend) {
        Some(table[choose|i: int| last_entry_for(table, friend, i)].1)
    } else {
        None
    }
}

/// The last entry decides where a friend lives.
pub proof fn lemma_residence_is(table: Seq<(Seq<char>, Place)>, friend: Seq<char>, i: int)
    requires
        last_entry_for(table, friend, i),
    ensures
        residence(table, friend) == Some(table[i].1),
{
    let p = choose|p: int| last_entry_for(table, friend, p);
    assert(last_entry_for(table, friend, p));
    if p < i {
        assert(table[i].0 != friend);
    } else if i < p {
        assert(table[p].0 != friend);
    }
}

/// Where each friend lives. Where a friend is entered more than once, the
/// last entry counts.
pub struct FriendMap {
    entries: Vec<(String, Location)>,
}

impl View for FriendMap {
    type V = Seq<(Seq<char>, Place)>;

    closed spec fn view(&self) -> Seq<(Seq<char>, Place)> {
        self.entries@.map_values(|e: (String, Location)| (e.0@, e.1@))
    }
}

impl FriendMap {
    /// The location where a friend lives, if the table has the friend.
    pub fn get(&self, friend: &String) -> (found: Option<&Location>)
        ensures
            match found {
                Some(location) => residence(self@, friend@) == Some(location@),
                None => residence(self@, friend@).is_none(),
            },
    {
        let mut i: usize = self.entries.len();
        while i > 0
            invariant
                i <= self.entries.len(),
                forall|j: int| i <= j < self.entries.len() ==> (#[trigger] self@[j]).0 != friend@,
            decreases i,
        {
            i -= 1;
            if self.entries[i].0.eq(friend) {
                proof {
                    assert(self@[i as int] == (self.entries[i as int].0@, self.entries[i as int].1@));
                    lemma_residence_is(self@, friend@, i as int);
                }
                return Some(&self.entries[i].1);
            }
        }
        None
    }
}


/// The name under which home is recognised: the one given, or `Home`.
pub open spec fn home_name(given: Option<Seq<char>>) -> Seq<char> {
    match given {
        Some(name) => name,
        None => "Home"@,
    }
}

/// Whether the table says where every one of these friends lives.
pub open spec fn all_friends_known(friends: Seq<Seq<char>>, table: Seq<(Seq<char>, Place)>) -> bool {
    forall|i: int| 0 <= i < friends.len() ==> has_friend(table, #[trigger] friends[i])
}

/// The stops of a round trip: the friends' places in the order given, then
/// home.
pub open spec fn stops(friends: Seq<Seq<char>>, table: Seq<(Seq<char>, Place)>) -> Seq<Place> {
    Seq::new(
        friends.len() + 1,
        |i: int|
            if i < friends.len() {
                residence(table, friends[i]).unwrap()
            } else {
                Place::Home
            },
    )
}

/// The place from which the `k`-th stop is reached: home for the first, the
/// stop before it for any other.
pub open spec fn departure(stops: Seq<Place>, k: int) -> Place {
    if k <= 0 {
        Place::Home
    } else {
        stops[k - 1]
    }
}

/// The distance travelled from home through the first `n` stops, or the error
/// of the first step whose distance cannot be computed.
pub open spec fn walk(chart: Chart, stops: Seq<Place>, n: nat) -> Result<nat, RouteError>
    decreases n,
{
    if n == 0 {
        Ok(0)
    } else {
        match walk(chart, stops, (n - 1) as nat) {
            Err(e) => Err(e),
            Ok(so_far) => match chart.distance(departure(stops, n - 1), stops[n - 1]) {
                Err(e) => Err(e),
                Ok(d) => Ok(so_far + d),
            },
        }
    }
}

/// The cost of the round trip that starts at home, visits the friends in the
/// order given and returns home.
pub open spec fn trip_cost(
    friends: Seq<Seq<char>>,
    friend_pairs: Seq<(Seq<char>, Seq<char>)>,
    town_pairs: Seq<(Seq<char>, u32)>,
    home: Option<Seq<char>>,
) -> Result<nat, RouteError> {
    let home = home_name(home);
    if misplaces_home(town_pairs, home) {
        Err(RouteError::InvalidHomeDistance)
    } else {
        let chart = Chart { towns: registered_towns(town_pairs, home), home };
        let table = friend_table(chart, friend_pairs);
        if all_friends_known(friends, table) {
            walk(chart, stops(friends, table), friends.len() + 1)
        } else {
            Err(RouteError::UnknownFriend)
        }
    }
}

/// What a list of names holds.
pub open spec fn strings_view(names: Seq<String>) -> Seq<Seq<char>> {
    names.map_values(|n: String| n@)
}

/// What an optional name holds.
pub open spec fn option_view(name: Option<String>) -> Option<Seq<char>> {
    match name {
        Some(n) => Some(n@),
        None => None,
    }
}

/// No step of a walk is longer than the way through home between the most
/// distant towns a map can hold.
pub proof fn lemma_walk_bound(chart: Chart, stops: Seq<Place>, n: nat)
    requires
        n <= stops.len(),
    ensures
        match walk(chart, stops, n) {
            Ok(d) => d <= n * 0x1_FFFF_FFFE,
            Err(_) => true,
        },
    decreases n,
{
    if n > 0 {
        lemma_walk_bound(chart, stops, (n - 1) as nat);
        lemma_distance_by_home(chart, departure(stops, n - 1), stops[n - 1]);
        assert((n - 1) * 0x1_FFFF_FFFE + 0x1_FFFF_FFFE == n * 0x1_FFFF_FFFE) by (nonlinear_arith);
    }
}

/// The distance between two places is never more than the way from the one
/// to home and from home to the other.
pub proof fn lemma_distance_by_home(chart: Chart, a: Place, b: Place)
    ensures
        match chart.distance(a, b) {
            Ok(d) => {
                &&& chart.distance_to_home(a) is Ok
                &&& chart.distance_to_home(b) is Ok
                &&& d <= chart.distance_to_home(a).unwrap() + chart.distance_to_home(b).unwrap()
                &&& d <= 0x1_FFFF_FFFE
            },
            Err(_) => true,
        },
{
}

/// The distance from home to home is zero.
pub proof fn lemma_home_to_home(chart: Chart)
    ensures
        chart.distance(Place::Home, Place::Home) == Ok::<nat, RouteError>(0),
{
}

/// From home to a place and from that place to home it is equally far: the
/// place's straight-line distance from home.
pub proof fn lemma_distance_from_home(chart: Chart, t: Place)
    ensures
        chart.distance(Place::Home, t) == chart.distance_to_home(t),
        chart.distance(t, Place::Home) == chart.distance_to_home(t),
{
}

/// The distance from one place to another is the distance back.
pub proof fn lemma_distance_symmetric(chart: Chart, a: Place, b: Place)
    ensures
        chart.distance(a, b) == chart.distance(b, a),
{
}

/// The cost of a round trip: from home to each friend in the order given, and
/// home again. `home_town_name` is the name under which home appears in the
/// lists; without one it is `Home`.
#[verifier::loop_isolation(false)]
pub fn total_distance(
    friends_to_visit: Vec<String>,
    friend_map: Vec<(String, String)>,
    town_map: Vec<(String, u32)>,
    home_town_name: Option<String>,
) -> (total: Result<u128, RouteError>)
    ensures
        match total {
            Ok(d) => trip_cost(
                strings_view(friends_to_visit@),
                names_view(friend_map@),
                pairs_view(town_map@),
                option_view(home_town_name),
            ) == Ok::<nat, RouteError>(d as nat),
            Err(e) => trip_cost(
                strings_view(friends_to_visit@),
                names_view(friend_map@),
                pairs_view(town_map@),
                option_view(home_town_name),
            ) == Err::<nat, RouteError>(e),
        },
{
    let ghost friends = strings_view(friends_to_visit@);
    let ghost given = option_view(home_town_name);
    let ghost cost = trip_cost(friends, names_view(friend_map@), pairs_view(town_map@), given);
    let home_town_name: String = match home_town_name {
        Some(name) => name,
        None => "Home".to_owned(),
    };
    assert(home_town_name@ == home_name(given));
    let town_map = match TownMap::from_vec(town_map, home_town_name.as_str()) {
        Ok(map) => map,
        Err(e) => { return Err(e); },
    };
    let friend_map = town_map.make_friend_map(friend_map);
    let ghost chart = town_map@;
    let ghost table = friend_map@;
    assert(chart == Chart { towns: chart.towns, home: chart.home });
    assert(cost == if all_friends_known(friends, table) {
        walk(chart, stops(friends, table), friends.len() + 1)
    } else {
        Err::<nat, RouteError>(RouteError::UnknownFriend)
    });
    let mut locations_to_visit: Vec<&Location> = Vec::new();
    let mut i: usize = 0;
    while i < friends_to_visit.len()
        invariant
            i <= friends_to_visit.len(),
            friends == strings_view(friends_to_visit@),
            table == friend_map@,
            !all_friends_known(friends, table) ==> cost == Err::<nat, RouteError>(
                RouteError::UnknownFriend,
            ),
            locations_to_visit.len() == i,
            forall|j: int| 0 <= j < i ==> has_friend(table, #[trigger] friends[j]),
            forall|j: int|
                0 <= j < i ==> (#[trigger] locations_to_visit[j])@ == residence(
                    table,
                    friends[j],
                ).unwrap(),
        decreases friends_to_visit.len() - i,
    {
        assert(friends[i as int] == friends_to_visit[i as int]@);
        match friend_map.get(&friends_to_visit[i]) {
            Some(location) => {
                locations_to_visit.push(location);
            },
            None => {
                assert(!has_friend(table, friends[i as int]));
                return Err(RouteError::UnknownFriend);
            },
        }
        i += 1;
    }
    let home = Location::Home;
    locations_to_visit.push(&home);
    let ghost route = stops(friends, table);
    assert(all_friends_known(friends, table));
    assert(route.len() == locations_to_visit.len());
    assert(forall|j: int| 0 <= j < route.len() ==> (#[trigger] locations_to_visit[j])@ == route[j]);

    let mut current_distance: u128 = 0;
    let mut current_location: &Location = &home;
    let mut k: usize = 0;
    while k < locations_to_visit.len()
        invariant
            k <= locations_to_visit.len(),
            route.len() == locations_to_visit.len(),
            forall|j: int| 0 <= j < route.len() ==> (#[trigger] locations_to_visit[j])@ == route[j],
            chart == town_map@,
            cost == walk(chart, route, route.len()),
            current_location@ == departure(route, k as int),
            walk(chart, route, k as nat) == Ok::<nat, RouteError>(current_distance as nat),
            current_distance <= k * 0x1_FFFF_FFFE,
        decreases locations_to_visit.len() - k,
    {
        let next: &Location = locations_to_visit[k];
        proof {
            lemma_walk_bound(chart, route, (k + 1) as nat);
            assert(k * 0x1_FFFF_FFFE + 0x1_FFFF_FFFE <= 0xFFFF_FFFF_FFFF_FFFF * 0x1_FFFF_FFFE
                + 0x1_FFFF_FFFE) by (nonlinear_arith)
                requires
                    k <= 0xFFFF_FFFF_FFFF_FFFF,
            ;
        }
        match town_map.distance(current_location, next) {
            Ok(d) => {
                proof {
                    lemma_distance_by_home(chart, current_location@, next@);
                }
                current_distance = current_distance + d as u128;
            },
            Err(e) => {
                proof {
                    lemma_walk_fails_on(chart, route, (k + 1) as nat, route.len());
                }
                return Err(e);
            },
        }
        current_location = next;
        k += 1;
    }
    Ok(current_distance)
}

/// A walk that has failed stays failed, with the same error, however many
/// more stops follow.
pub proof fn lemma_walk_fails_on(chart: Chart, stops: Seq<Place>, n: nat, m: nat)
    requires
        n <= m,
        walk(chart, stops, n) is Err,
    ensures
        walk(chart, stops, m) == walk(chart, stops, n),
    decreases m,
{
    if n < m {
        lemma_walk_fails_on(chart, stops, n, (m - 1) as nat);
    }
}

} // verus!
