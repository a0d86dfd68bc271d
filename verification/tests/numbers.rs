use katas::bus::riders_left;
use katas::cubic::{all_cubics, find_cubics, find_last_digit, find_next_digit, is_cubic};
use katas::number_check::{is_prime, number_property};

#[test]
fn it_returns_false_for_most_numbers() {
    assert_eq!(is_cubic(2), false);
    assert_eq!(is_cubic(22), false);
    assert_eq!(is_cubic(500), false);
}

#[test]
fn it_returns_false_for_numbers_over_999() {
    assert_eq!(is_cubic(1000), false);
    assert_eq!(is_cubic(5000), false);
}

#[test]
fn find_cubics_works_too() {
    assert_eq!(find_cubics("aqdf& 0 1 xyz 153 777.777"), vec![0, 1, 153]);
    assert_eq!(find_cubics("370&371h xyz 15 407.777"), vec![370, 371, 407]);
}

#[test]
fn can_find_all_cubics() {
    assert_eq!(all_cubics(), vec![0, 1, 153, 370, 371, 407]);
}

#[test]
fn find_cubics_reads_longest_runs_of_digits() {
    assert_eq!(find_cubics(""), Vec::<u32>::new());
    assert_eq!(find_cubics("no digits"), Vec::<u32>::new());
    assert_eq!(find_cubics("153"), vec![153]);
    assert_eq!(find_cubics("1530"), Vec::<u32>::new());
    assert_eq!(find_cubics("0153 00001 370"), vec![153, 1, 370]);
    assert_eq!(find_cubics("99999999999999999999999 407"), vec![407]);
    assert_eq!(find_cubics("é153ü1"), vec![153, 1]);
}

#[test]
fn digit_runs_are_found_by_position() {
    let chars: Vec<char> = "ab12c".chars().collect();
    assert_eq!(find_next_digit(&chars, 0), Some(2));
    assert_eq!(find_next_digit(&chars, 3), Some(3));
    assert_eq!(find_next_digit(&chars, 4), None);
    assert_eq!(find_next_digit(&chars, 9), None);
    assert_eq!(find_last_digit(&chars, 2), 4);
    assert_eq!(find_last_digit(&chars, 0), 0);
    assert_eq!(find_last_digit(&chars, 9), 9);
}

#[test]
fn it_returns_zero_for_an_empty_array() {
    assert_eq!(riders_left(&[]), Ok(0))
}

#[test]
fn it_for_a_semi_complicated_array_example() {
    assert_eq!(riders_left(&[(10, 0), (5, 9), (6, 6), (2, 6)]), Ok(2));
}

#[test]
fn it_for_a_semi_complicated_vec_example() {
    assert_eq!(riders_left(&vec![(10, 0), (5, 9), (6, 6), (2, 6)]), Ok(2));
}

#[test]
fn it_for_a_broken_example() {
    assert_eq!(
        riders_left(&vec![(10, 0), (5, 9), (6, 6), (2, 12)]),
        Err("Somehow more people left the bus than got on")
    );
}

#[test]
fn riders_missing_at_one_stop_stay_missing() {
    assert_eq!(
        riders_left(&[(1, 2), (10, 0)]),
        Err("Somehow more people left the bus than got on")
    );
    assert_eq!(riders_left(&[(u32::MAX, 0), (0, u32::MAX)]), Ok(0));
}

#[test]
fn it_works_for_negative_examples() {
    assert_eq!(number_property(-7), (false, false, false));
    assert_eq!(number_property(-10), (false, true, true));
}

#[test]
fn one_counts_as_prime_and_zero_does_not() {
    assert_eq!(is_prime(0), false);
    assert_eq!(is_prime(1), true);
    assert_eq!(is_prime(2), true);
    assert_eq!(is_prime(9), false);
    assert_eq!(is_prime(97), true);
    assert_eq!(number_property(0), (false, true, true));
    assert_eq!(number_property(1), (true, false, false));
    assert_eq!(number_property(2), (true, true, false));
    assert_eq!(number_property(-1), (false, false, false));
    assert_eq!(number_property(i64::MIN), (false, true, false));
}
