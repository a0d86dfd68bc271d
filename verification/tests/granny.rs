use katas::granny::{integer_sqrt, total_distance, Location, RouteError, TownMap};

fn is_within_tolerance_of(x: f64, y: f64) -> bool {
    let tolerance = 0.1;

    (x - tolerance) <= y && y <= (x + tolerance)
}

/// Distances are handed to the library in thousandths.
fn thousandths(x: f64) -> u32 {
    (x * 1000.0).round() as u32
}

fn towns(list: &[(&str, f64)]) -> Vec<(String, u32)> {
    list.iter().map(|(name, d)| (name.to_string(), thousandths(*d))).collect()
}

fn friends(list: &[(&str, &str)]) -> Vec<(String, String)> {
    list.iter().map(|(f, t)| (f.to_string(), t.to_string())).collect()
}

fn whole(total: u128) -> f64 {
    total as f64 / 1000.0
}

fn town(name: &str) -> Location {
    Location::Town(name.to_string())
}

#[test]
fn it_works_for_a_single_friend() {
    let friends_to_visit = vec!["friend1".to_string()];
    let friend_map = friends(&[("friend1", "town1")]);
    let town_map = towns(&[("town1", 5.)]);
    let home_town_name = None;
    let distance =
        total_distance(friends_to_visit, friend_map, town_map, home_town_name).unwrap();
    assert!(is_within_tolerance_of(whole(distance), 10.));
    assert_eq!(distance, 10_000);
}

#[test]
fn it_works_for_a_two_friends_in_adjacent_towns() {
    let friends_to_visit = vec!["friend1".to_string(), "friend2".to_string()];
    let friend_map = friends(&[("friend1", "town1"), ("friend2", "town2")]);
    let town_map = towns(&[("town1", 5.), ("town2", 11.)]);
    let home_town_name = None;
    let distance =
        total_distance(friends_to_visit, friend_map, town_map, home_town_name).unwrap();
    assert!(is_within_tolerance_of(whole(distance), 25.79));
    // 5000 + floor(sqrt(11000^2 - 5000^2)) + 11000
    assert_eq!(distance, 5_000 + 9_797 + 11_000);
}

#[test]
fn it_works_for_a_two_friends_non_adjacent_towns() {
    let friends_to_visit = vec!["friend1".to_string(), "friend2".to_string()];
    let friend_map = friends(&[("friend1", "town1"), ("friend2", "town10")]);
    let town_map = towns(&[
        ("town1", 5.),
        ("town2", 11.),
        ("town3", 50.),
        ("town4", 52.),
        ("town5", 53.),
        ("town6", 54.),
        ("town7", 55.),
        ("town8", 56.),
        ("town9", 57.),
        ("town10", 70.),
    ]);
    let home_town_name = None;
    let distance =
        total_distance(friends_to_visit, friend_map, town_map, home_town_name).unwrap();
    assert!(is_within_tolerance_of(whole(distance), 150.), "{}", format!("{}", distance));
}

#[test]
fn it_works_for_a_two_friends_almost_adjacent_towns() {
    let friends_to_visit = vec!["friend1".to_string(), "friend2".to_string()];
    let friend_map = friends(&[("friend1", "town1"), ("friend2", "town4")]);
    let town_map = towns(&[("town1", 5.), ("town2", 6.), ("town3", 7.), ("town4", 8.)]);
    let home_town_name = None;
    let distance = total_distance(friends_to_visit, friend_map, town_map, home_town_name)
        .expect("the route can be walked");
    assert!(is_within_tolerance_of(whole(distance), 23.79), "{}", format!("{}", distance));
}

#[test]
fn integer_sqrt_rounds_down() {
    assert_eq!(integer_sqrt(0), 0);
    assert_eq!(integer_sqrt(1), 1);
    assert_eq!(integer_sqrt(3), 1);
    assert_eq!(integer_sqrt(4), 2);
    assert_eq!(integer_sqrt(96), 9);
    assert_eq!(integer_sqrt(96_000_000), 9_797);
    assert_eq!(integer_sqrt(u64::MAX), u32::MAX);
    assert_eq!(integer_sqrt((u32::MAX as u64) * (u32::MAX as u64) - 1), u32::MAX - 1);
}

#[test]
fn home_to_home_is_zero() {
    let map = TownMap::from_vec(towns(&[("a", 3.), ("b", 5.)]), "Home").unwrap();
    assert_eq!(map.distance(&Location::Home, &Location::Home), Ok(0));
    let empty = TownMap::from_vec(vec![], "Home").unwrap();
    assert_eq!(empty.distance(&Location::Home, &Location::Home), Ok(0));
    assert_eq!(empty.town_count(), 0);
}

#[test]
fn home_and_town_are_the_town_s_distance_apart() {
    let map = TownMap::from_vec(vec![("a".to_string(), 3), ("b".to_string(), 5)], "Home").unwrap();
    for name in ["a", "b", "nowhere"] {
        let t = town(name);
        let to_home = map.distance_to_home(&t).map(|d| d as u64);
        assert_eq!(map.distance(&Location::Home, &t), to_home);
        assert_eq!(map.distance(&t, &Location::Home), to_home);
    }
    assert_eq!(map.distance_to_home(&town("b")), Ok(5));
    assert_eq!(map.distance_to_home(&Location::Home), Ok(0));
    assert_eq!(map.distance_to_home(&town("nowhere")), Err(RouteError::UnknownTown));
}

#[test]
fn distance_is_symmetric_and_never_beyond_the_way_through_home() {
    let list = vec![
        ("a".to_string(), 5),
        ("b".to_string(), 11),
        ("c".to_string(), 50),
        ("d".to_string(), 52),
        ("e".to_string(), 70),
    ];
    let map = TownMap::from_vec(list, "Home").unwrap();
    let places = [Location::Home, town("a"), town("b"), town("c"), town("d"), town("e")];
    for x in places.iter() {
        for y in places.iter() {
            let there = map.distance(x, y).unwrap();
            let back = map.distance(y, x).unwrap();
            assert_eq!(there, back);
            let by_home = map.distance_to_home(x).unwrap() as u64
                + map.distance_to_home(y).unwrap() as u64;
            assert!(there <= by_home);
        }
    }
    // sqrt(121 - 25) = 9.79.., rounded down
    assert_eq!(map.distance(&town("a"), &town("b")), Ok(9));
    assert_eq!(map.distance_around_radius(&town("a"), &town("b")), Ok(9));
    // 9 + floor(sqrt(2500 - 121)) = 9 + 48 = 57 > 5 + 50
    assert_eq!(map.distance_around_radius(&town("a"), &town("c")), Ok(57));
    assert_eq!(map.distance(&town("a"), &town("c")), Ok(55));
    assert_eq!(map.distance(&town("c"), &town("c")), Ok(0));
}

#[test]
fn a_tie_takes_the_way_around() {
    // 3-4-5 triangle: the leg from 3 to 5 is 4; through home it is 8.
    let map = TownMap::from_vec(vec![("a".to_string(), 3), ("b".to_string(), 5)], "Home").unwrap();
    assert_eq!(map.distance(&town("a"), &town("b")), Ok(4));
    // From 0 to 7 the leg is 7, as is the way through home.
    let tie = TownMap::from_vec(vec![("o".to_string(), 0), ("p".to_string(), 7)], "Home").unwrap();
    assert_eq!(tie.distance_around_radius(&town("o"), &town("p")), Ok(7));
    assert_eq!(tie.distance(&town("o"), &town("p")), Ok(7));
}

#[test]
fn home_with_a_distance_fails_construction() {
    let made = TownMap::from_vec(vec![("a".to_string(), 3), ("Home".to_string(), 1)], "Home");
    assert!(matches!(made, Err(RouteError::InvalidHomeDistance)));
    let fine = TownMap::from_vec(vec![("a".to_string(), 3), ("Home".to_string(), 0)], "Home");
    assert_eq!(fine.unwrap().town_count(), 1);
    let named = TownMap::from_vec(vec![("a".to_string(), 3), ("Home".to_string(), 1)], "a");
    assert!(matches!(named, Err(RouteError::InvalidHomeDistance)));
    let total = total_distance(
        vec![],
        vec![],
        vec![("Casa".to_string(), 4)],
        Some("Casa".to_string()),
    );
    assert_eq!(total, Err(RouteError::InvalidHomeDistance));
}

#[test]
fn unknown_places_and_bad_ladders_are_reported() {
    let map = TownMap::from_vec(vec![("far".to_string(), 9), ("near".to_string(), 2)], "Home").unwrap();
    assert_eq!(
        map.distance(&town("far"), &town("near")),
        Err(RouteError::InvalidRightAngleConfiguration)
    );
    assert_eq!(
        map.distance(&town("near"), &town("far")),
        Err(RouteError::InvalidRightAngleConfiguration)
    );
    assert_eq!(map.distance(&town("far"), &town("x")), Err(RouteError::UnknownLocation));
    assert_eq!(map.distance(&town("x"), &town("far")), Err(RouteError::UnknownLocation));
    assert_eq!(
        map.distance_around_radius(&Location::Home, &town("far")),
        Err(RouteError::UnknownLocation)
    );
    assert_eq!(map.distance(&Location::Home, &town("x")), Err(RouteError::UnknownTown));
    let lost = total_distance(
        vec!["ann".to_string(), "bob".to_string()],
        friends(&[("ann", "far")]),
        vec![("far".to_string(), 9)],
        None,
    );
    assert_eq!(lost, Err(RouteError::UnknownFriend));
    let stranded = total_distance(
        vec!["ann".to_string()],
        friends(&[("ann", "elsewhere")]),
        vec![("far".to_string(), 9)],
        None,
    );
    assert_eq!(stranded, Err(RouteError::UnknownTown));
}

#[test]
fn the_last_entry_for_a_name_counts() {
    // "a" is named twice: it is held once, in its first place, with its last distance.
    let map = TownMap::from_vec(
        vec![("a".to_string(), 3), ("b".to_string(), 5), ("a".to_string(), 4)],
        "Home",
    )
    .unwrap();
    assert_eq!(map.town_count(), 2);
    assert_eq!(map.distance_to_home(&town("a")), Ok(4));
    // one step from position 0 to 1: sqrt(25 - 16) = 3
    assert_eq!(map.distance_around_radius(&town("b"), &town("a")), Ok(3));
    let table = map.make_friend_map(friends(&[("ann", "a"), ("ann", "b"), ("hal", "Home")]));
    assert!(table.get(&"ann".to_string()).unwrap().same_place(&town("b")));
    assert!(table.get(&"hal".to_string()).unwrap().same_place(&Location::Home));
    assert!(table.get(&"zed".to_string()).is_none());
    assert!(map.get_location_from_string("Home").same_place(&Location::Home));
    assert!(map.get_location_from_string("home").same_place(&town("home")));
    assert!(!town("a").same_place(&town("b")));
}

#[test]
fn a_town_named_twice_is_held_once() {
    let list = vec![
        ("a".to_string(), 3),
        ("b".to_string(), 5),
        ("a".to_string(), 7),
        ("c".to_string(), 13),
    ];
    let map = TownMap::from_vec(list, "Home").unwrap();
    assert_eq!(map.town_count(), 3);
    assert_eq!(map.distance_to_home(&town("a")), Ok(7));
    // "c" stands next to "b": sqrt(169 - 25) = 12
    assert_eq!(map.distance_around_radius(&town("b"), &town("c")), Ok(12));
    assert_eq!(map.distance(&town("c"), &town("b")), Ok(12));
    // "a" is now farther out than "b", its neighbour
    assert_eq!(
        map.distance_around_radius(&town("a"), &town("b")),
        Err(RouteError::InvalidRightAngleConfiguration)
    );
    let same = TownMap::from_vec(
        vec![("a".to_string(), 1), ("a".to_string(), 2), ("a".to_string(), 3)],
        "Home",
    )
    .unwrap();
    assert_eq!(same.town_count(), 1);
    assert_eq!(same.distance_to_home(&town("a")), Ok(3));
    let home_again = TownMap::from_vec(
        vec![("Home".to_string(), 0), ("a".to_string(), 1), ("Home".to_string(), 0)],
        "Home",
    )
    .unwrap();
    assert_eq!(home_again.town_count(), 1);
}

#[test]
fn a_friend_at_home_costs_nothing() {
    let total = total_distance(
        vec!["ann".to_string(), "hal".to_string(), "ann".to_string()],
        friends(&[("ann", "a"), ("hal", "Base")]),
        vec![("a".to_string(), 6), ("Base".to_string(), 0)],
        Some("Base".to_string()),
    );
    assert_eq!(total, Ok(24));
    assert_eq!(total_distance(vec![], vec![], vec![], None), Ok(0));
}

#[test]
fn errors_say_what_went_wrong() {
    assert_eq!(
        RouteError::InvalidHomeDistance.message(),
        "Home town must be 0 miles away from itself"
    );
    assert_eq!(RouteError::UnknownTown.message(), "We don't know where this town is");
    assert_eq!(
        RouteError::UnknownLocation.message(),
        "We don't know where this location is"
    );
    assert_eq!(
        RouteError::UnknownFriend.message(),
        "We don't know where this friend lives"
    );
    assert_eq!(
        RouteError::InvalidRightAngleConfiguration.message(),
        "This map is invalid because of the right angle rule"
    );
}

#[test]
fn the_first_error_on_the_way_is_reported() {
    // the map is looked at before the friends are, and the friends before the way
    let both = total_distance(
        vec!["nobody".to_string()],
        vec![],
        vec![("Home".to_string(), 2)],
        None,
    );
    assert_eq!(both, Err(RouteError::InvalidHomeDistance));
    let way = total_distance(
        vec!["ann".to_string(), "bob".to_string(), "cy".to_string()],
        friends(&[("ann", "far"), ("bob", "near"), ("cy", "nowhere")]),
        vec![("far".to_string(), 9), ("near".to_string(), 2)],
        None,
    );
    assert_eq!(way, Err(RouteError::InvalidRightAngleConfiguration));
    let friend = total_distance(
        vec!["ann".to_string(), "bob".to_string(), "dee".to_string()],
        friends(&[("ann", "far"), ("bob", "near")]),
        vec![("far".to_string(), 9), ("near".to_string(), 2)],
        None,
    );
    assert_eq!(friend, Err(RouteError::UnknownFriend));
}
