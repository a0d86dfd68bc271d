use katas::text::parse_u32;
use katas::walk::{
    chosen_direction, directions_to_string, options_availible, parse_time_of_walk, Direction, Step,
    Walk,
};

#[test]
fn parse_time_of_walk_test() {
    assert_eq!(
        parse_time_of_walk("3"),
        Err("Walk time must be an even number or we will not be able to get back to where we started")
    );
    assert_eq!(
        parse_time_of_walk("five"),
        Err("Could not parse the walk time")
    );
    assert_eq!(parse_time_of_walk("4"), Ok(4));
}

#[test]
fn test_all_options_availible() {
    let output = options_availible((0, 0), 10);
    let all_options = vec![
        Direction::North,
        Direction::South,
        Direction::East,
        Direction::West,
    ];
    assert_eq!(output, Some(all_options));
}

#[test]
fn test_impossible_options() {
    assert_eq!(options_availible((0, -10), 1), None);
    assert_eq!(options_availible((1, 10), 10), None);
    assert_eq!(options_availible((-1, 10), 10), None);
}

#[test]
fn test_already_at_origin_and_no_minutes_left() {
    assert_eq!(options_availible((0, 0), 0), Some(vec![]));
}

#[test]
fn test_north_only_option() {
    let output = options_availible((0, -1), 1);
    assert_eq!(output, Some(vec![Direction::North]));
}

#[test]
fn options_lead_home_when_time_is_short() {
    assert_eq!(
        options_availible((2, -3), 5),
        Some(vec![Direction::North, Direction::West])
    );
    assert_eq!(options_availible((-4, 0), 4), Some(vec![Direction::East]));
    assert_eq!(options_availible((0, 7), 7), Some(vec![Direction::South]));
    assert_eq!(options_availible((i32::MIN, i32::MIN), u32::MAX), None);
    assert_eq!(options_availible((i32::MIN, 0), u32::MAX).map(|o| o.len()), Some(4));
}

#[test]
fn numbers_are_parsed_as_the_standard_library_parses_them() {
    for text in [
        "", "+", "-", "0", "+0", "-0", "7", "+7", "-7", "007", " 7", "7 ", "7a", "1_000",
        "4294967295", "4294967296", "+4294967295", "99999999999999999999", "٣", "++1",
    ] {
        assert_eq!(parse_u32(text), text.parse::<u32>().ok(), "{}", text);
    }
    assert_eq!(parse_u32("4294967295"), Some(u32::MAX));
    assert_eq!(parse_time_of_walk("+12"), Ok(12));
    assert_eq!(parse_time_of_walk(""), Err("Could not parse the walk time"));
}

#[test]
fn directions_are_chosen_by_their_first_letter() {
    assert_eq!(chosen_direction("north"), Some(Direction::North));
    assert_eq!(chosen_direction("N"), Some(Direction::North));
    assert_eq!(chosen_direction("e"), Some(Direction::East));
    assert_eq!(chosen_direction("West"), Some(Direction::West));
    assert_eq!(chosen_direction("sOUTH"), Some(Direction::South));
    assert_eq!(chosen_direction(""), None);
    assert_eq!(chosen_direction(" north"), None);
    assert_eq!(chosen_direction("up"), None);
}

#[test]
fn directions_are_named_and_listed() {
    assert_eq!(Direction::North.to_str(), "North");
    assert_eq!(Direction::West.to_str(), "West");
    assert_eq!(Direction::North.direction_diff(), (0, 1));
    assert_eq!(Direction::South.direction_diff(), (0, -1));
    assert_eq!(Direction::East.direction_diff(), (1, 0));
    assert_eq!(Direction::West.direction_diff(), (-1, 0));
    assert!(Direction::East.will_take_me_home((-1, 5)));
    assert!(!Direction::East.will_take_me_home((0, 5)));
    assert_eq!(directions_to_string(&vec![]), "");
    assert_eq!(directions_to_string(&vec![Direction::South]), "South");
    assert_eq!(
        directions_to_string(&vec![Direction::North, Direction::East, Direction::North]),
        "North, East, North"
    );
}

#[test]
fn a_walk_goes_on_while_the_start_is_within_reach() {
    let mut walk = Walk::start(4);
    assert_eq!(walk.position, (0, 0));
    assert_eq!(walk.minutes_left, 4);
    assert!(matches!(walk.next(), Step::Choose(options) if options.len() == 4));
    walk.take(Direction::East);
    walk.take(Direction::East);
    assert_eq!(walk.position, (2, 0));
    assert_eq!(walk.minutes_left, 2);
    assert!(matches!(walk.next(), Step::Choose(options) if options == vec![Direction::West]));
    walk.take(Direction::North);
    assert!(matches!(walk.next(), Step::OutOfReach));
    assert_eq!(walk.path, vec![Direction::East, Direction::East, Direction::North]);

    let mut round = Walk::start(2);
    round.take(Direction::South);
    round.take(Direction::North);
    assert_eq!(round.position, (0, 0));
    assert!(matches!(round.next(), Step::TimeUp));
    assert!(matches!(Walk::start(0).next(), Step::TimeUp));
}
