//! A walk on a street grid that must end where it began when the time is up.

use vstd::prelude::*;
use crate::text::{append_str, chars_of, join_chars, joined, parse_u32, parsed_u32, string_of};

verus! {

/// One block's walk along a street.
#[derive(Debug, Clone, Copy, PartialEq, Eq, Structural)]
pub enum Direction {
    North,
    South,
    East,
    West,
}

/// Reads the length of the walk in minutes. It must be an even number, or the
/// walker could not be back at the start when the time is up.
pub fn parse_time_of_walk(user_input: &str) -> (parsed: Result<u32, &'static str>)
    ensures
        match parsed {
            Ok(minutes) => parsed_u32(user_input@) == Some(minutes) && minutes % 2 == 0,
            Err(complaint) => match parsed_u32(user_input@) {
                Some(minutes) => minutes % 2 != 0 && complaint@
                    == "Walk time must be an even number or we will not be able to get back to where we started"@,
                None => complaint@ == "Could not parse the walk time"@,
            },
        },
{
    match parse_u32(user_input) {
        Some(i) => {
            if i % 2 == 0 {
                Ok(i)
            } else {
                Err(
                    "Walk time must be an even number or we will not be able to get back to where we started",
                )
            }
        },
        None => Err("Could not parse the walk time"),
    }
}

impl Direction {
    /// Whether one block in this direction brings a walker at this position
    /// nearer to the start. Positions are counted east and north of the start.
    pub open spec fn leads_home(self, position: (i32, i32)) -> bool {
        match self {
            Direction::North => position.1 < 0,
            Direction::South => position.1 > 0,
            Direction::East => position.0 < 0,
            Direction::West => position.0 > 0,
        }
    }

    /// The direction's name.
    pub open spec fn name(self) -> Seq<char> {
        match self {
            Direction::North => "North"@,
            Direction::South => "South"@,
            Direction::East => "East"@,
            Direction::West => "West"@,
        }
    }

    /// Whether one block in this direction brings a walker at this position
    /// nearer to the start.
    pub fn will_take_me_home(&self, current_position: (i32, i32)) -> (nearer: bool)
        ensures
            nearer == self.leads_home(current_position),
    {
        match self {
            Direction::North => current_position.1 < 0,
            Direction::South => current_position.1 > 0,
            Direction::East => current_position.0 < 0,
            Direction::West => current_position.0 > 0,
        }
    }

    /// The direction's name.
    pub fn to_str(&self) -> (name: &'static str)
        ensures
            name@ == self.name(),
    {
        match self {
            Direction::North => "North",
            Direction::South => "South",
            Direction::East => "East",
            Direction::West => "West",
        }
    }

    /// The change of position that one block in this direction makes, east
    /// first and north second.
    pub fn direction_diff(&self) -> (diff: (i32, i32))
        ensures
            diff == match self {
                Direction::North => (0i32, 1i32),
                Direction::South => (0i32, -1i32),
                Direction::East => (1i32, 0i32),
                Direction::West => (-1i32, 0i32),
            },
    {
        match self {
            Direction::North => (0, 1),
            Direction::South => (0, -1),
            Direction::East => (1, 0),
            Direction::West => (-1, 0),
        }
    }
}

/// The number of blocks between a position and the start.
pub open spec fn blocks_from_start(position: (i32, i32)) -> int {
    (if position.0 < 0 {
        -position.0
    } else {
        position.0 as int
    }) + (if position.1 < 0 {
        -position.1
    } else {
        position.1 as int
    })
}

/// Whether a walker at this position with this many minutes left may take
/// this direction: always where there is time for a detour, else only where
/// it leads nearer to the start.
pub open spec fn may_take(direction: Direction, position: (i32, i32), minutes_left: u32) -> bool {
    direction.leads_home(position) || blocks_from_start(position) < minutes_left
}

/// The four directions, in the order in which they are offered.
pub open spec fn all_directions() -> Seq<Direction> {
    seq![Direction::North, Direction::South, Direction::East, Direction::West]
}

/// The directions that a walker may take, one minute a block: none at the
/// start with no time left, no answer where the start is out of reach, else
/// those of the four directions that leave the start within reach.
pub open spec fn options(position: (i32, i32), minutes_left: u32) -> Option<Seq<Direction>> {
    if position == (0i32, 0i32) && minutes_left == 0 {
        Some(Seq::empty())
    } else if blocks_from_start(position) > minutes_left {
        None
    } else {
        Some(all_directions().filter(|d: Direction| may_take(d, position, minutes_left)))
    }
}

/// The directions that a walker at `current_position` may take with
/// `minutes_left` minutes left, or `None` where the start can no longer be
/// reached in time.
pub fn options_availible(current_position: (i32, i32), minutes_left: u32) -> (found: Option<
    Vec<Direction>,
>)
    ensures
        match found {
            Some(directions) => options(current_position, minutes_left) == Some(directions@),
            None => options(current_position, minutes_left).is_none(),
        },
{
    if current_position.0 == 0 && current_position.1 == 0 && minutes_left == 0 {
        return Some(Vec::new());
    }
    let east: i64 = if current_position.0 < 0 {
        -(current_position.0 as i64)
    } else {
        current_position.0 as i64
    };
    let north: i64 = if current_position.1 < 0 {
        -(current_position.1 as i64)
    } else {
        current_position.1 as i64
    };
    let distance_from_origin: i64 = east + north;
    if distance_from_origin > minutes_left as i64 {
        None
    } else {
        let all_options: [Direction; 4] = [
            Direction::North,
            Direction::South,
            Direction::East,
            Direction::West,
        ];
        let can_take_detour = distance_from_origin < minutes_left as i64;
        let mut options: Vec<Direction> = Vec::new();
        let ghost keep = |d: Direction| may_take(d, current_position, minutes_left);
        assert(all_options@ =~= all_directions());
        let mut i: usize = 0;
        proof {
            reveal(Seq::filter);
            assert(all_options@.take(0) =~= Seq::empty());
        }
        while i < 4
            invariant
                i <= 4,
                all_options@ == all_directions(),
                can_take_detour == (blocks_from_start(current_position) < minutes_left),
                keep == |d: Direction| may_take(d, current_position, minutes_left),
                options@ == all_options@.take(i as int).filter(keep),
            decreases 4 - i,
        {
            proof {
                reveal(Seq::filter);
                assert(all_options@.take(i + 1).drop_last() =~= all_options@.take(i as int));
            }
            let direction = all_options[i];
            if direction.will_take_me_home(current_position) || can_take_detour {
                options.push(direction);
            }
            i += 1;
        }
        assert(all_options@.take(4) =~= all_options@);
        Some(options)
    }
}

/// The direction that an answer's first letter names, whether it is a small
/// or a capital letter.
pub open spec fn direction_named(input: Seq<char>) -> Option<Direction> {
    if input.len() == 0 {
        None
    } else if input[0] == 'n' || input[0] == 'N' {
        Some(Direction::North)
    } else if input[0] == 'e' || input[0] == 'E' {
        Some(Direction::East)
    } else if input[0] == 'w' || input[0] == 'W' {
        Some(Direction::West)
    } else if input[0] == 's' || input[0] == 'S' {
        Some(Direction::South)
    } else {
        None
    }
}

/// The direction that the walker chose, read from the first letter of the
/// answer.
pub fn chosen_direction(input: &str) -> (chosen: Option<Direction>)
    ensures
        chosen == direction_named(input@),
{
    if input.unicode_len() == 0 {
        return None;
    }
    let first = input.get_char(0);
    if first == 'n' || first == 'N' {
        Some(Direction::North)
    } else if first == 'e' || first == 'E' {
        Some(Direction::East)
    } else if first == 'w' || first == 'W' {
        Some(Direction::West)
    } else if first == 's' || first == 'S' {
        Some(Direction::South)
    } else {
        None
    }
}

/// The names of the directions of a path.
pub open spec fn names_of(path: Seq<Direction>) -> Seq<Seq<char>> {
    path.map_values(|d: Direction| d.name())
}

/// The names of the directions of a path, separated by a comma and a space.
pub fn directions_to_string(path: &Vec<Direction>) -> (text: String)
    ensures
        text@ == joined(names_of(path@), ", "@),
{
    let mut names: Vec<Vec<char>> = Vec::new();
    let mut i: usize = 0;
    while i < path.len()
        invariant
            i <= path.len(),
            names.len() == i,
            forall|j: int| 0 <= j < i ==> (#[trigger] names[j])@ == path[j].name(),
        decreases path.len() - i,
    {
        names.push(chars_of(path[i].to_str()));
        i += 1;
    }
    assert(crate::text::texts(names@) =~= names_of(path@));
    let whole = join_chars(&names, ", ");
    string_of(&whole)
}


/// A walk in progress: where the walker stands, east and north of the start,
/// how many minutes are left, and the blocks walked so far.
#[derive(Debug)]
pub struct Walk {
    pub position: (i32, i32),
    pub minutes_left: u32,
    pub path: Vec<Direction>,
}

/// What comes next in a walk.
#[derive(Debug)]
pub enum Step {
    /// The walker chooses among these directions.
    Choose(Vec<Direction>),
    /// The time is up.
    TimeUp,
    /// The start can no longer be reached in time.
    OutOfReach,
}

/// The position one block further in a direction.
pub open spec fn moved(position: (i32, i32), direction: Direction) -> (int, int) {
    match direction {
        Direction::North => (position.0 as int, position.1 + 1),
        Direction::South => (position.0 as int, position.1 - 1),
        Direction::East => (position.0 + 1, position.1 as int),
        Direction::West => (position.0 - 1, position.1 as int),
    }
}

impl Walk {
    /// A walk of so many minutes, about to begin.
    pub fn start(minutes: u32) -> (walk: Walk)
        ensures
            walk.position == (0i32, 0i32),
            walk.minutes_left == minutes,
            walk.path@.len() == 0,
    {
        Walk { position: (0, 0), minutes_left: minutes, path: Vec::new() }
    }

    /// What comes next: the walk goes on while there is time left and the
    /// start is within reach.
    pub fn next(&self) -> (step: Step)
        ensures
            match step {
                Step::Choose(directions) => self.minutes_left > 0 && options(
                    self.position,
                    self.minutes_left,
                ) == Some(directions@),
                Step::TimeUp => self.minutes_left == 0,
                Step::OutOfReach => self.minutes_left > 0 && options(
                    self.position,
                    self.minutes_left,
                ).is_none(),
            },
    {
        if self.minutes_left == 0 {
            return Step::TimeUp;
        }
        match options_availible(self.position, self.minutes_left) {
            Some(directions) => Step::Choose(directions),
            None => Step::OutOfReach,
        }
    }

    /// Walks one block in a direction, which takes a minute. The walker may
    /// take any direction, also one that was not offered.
    pub fn take(&mut self, direction: Direction)
        requires
            old(self).minutes_left > 0,
            i32::MIN <= moved(old(self).position, direction).0 <= i32::MAX,
            i32::MIN <= moved(old(self).position, direction).1 <= i32::MAX,
        ensures
            final(self).position.0 == moved(old(self).position, direction).0,
            final(self).position.1 == moved(old(self).position, direction).1,
            final(self).minutes_left == old(self).minutes_left - 1,
            final(self).path@ == old(self).path@.push(direction),
    {
        let diff = direction.direction_diff();
        self.position = (self.position.0 + diff.0, self.position.1 + diff.1);
        self.path.push(direction);
        self.minutes_left = self.minutes_left - 1;
    }
}

} // verus!
