use katas::squares::{decompose, decompose_starting_from, search_squares};
use katas::twice_linear::{twice_linear, twice_linear_at};

#[test]
fn it_works_for_the_base_cases() {
    assert_eq!(twice_linear_at(0), 1);
    assert_eq!(twice_linear_at(1), 3);
    assert_eq!(twice_linear_at(2), 4);
}

#[test]
fn it_works_for_the_example() {
    assert_eq!(twice_linear_at(3), 7);
    assert_eq!(twice_linear_at(4), 9);
    assert_eq!(twice_linear_at(5), 10);
    assert_eq!(twice_linear_at(6), 13);
    assert_eq!(twice_linear_at(7), 15);
    assert_eq!(twice_linear_at(8), 19);
    assert_eq!(twice_linear_at(9), 21);
    assert_eq!(twice_linear_at(10), 22);
    assert_eq!(twice_linear_at(11), 27);
}

#[test]
fn it_can_also_return_the_vec() {
    assert_eq!(
        twice_linear(12),
        vec![1, 3, 4, 7, 9, 10, 13, 15, 19, 21, 22, 27]
    );
}

#[test]
fn a_number_reached_twice_stands_twice() {
    assert_eq!(twice_linear(0), Vec::<u32>::new());
    assert_eq!(twice_linear(1), vec![1]);
    // 31 is 2 * 15 + 1 and 3 * 10 + 1
    let members = twice_linear(20);
    assert_eq!(&members[12..], &[28, 31, 31, 39, 40, 43, 45, 46]);
    let many = twice_linear(2000);
    assert!(many.windows(2).all(|pair| pair[0] <= pair[1]));
    assert_eq!(twice_linear_at(1999), many[1999]);
}

#[test]
fn it_works_for_a_nonexistant_example() {
    assert_eq!(decompose(4), None);
}

#[test]
fn lib_it_works_for_the_dev_to_example() {
    assert_eq!(decompose(11), Some(vec![1, 2, 4, 10]));
}

#[test]
fn it_works_for_50() {
    assert_eq!(decompose(50), Some(vec![1, 3, 5, 8, 49]));
}

#[test]
fn the_largest_numbers_are_taken_first() {
    assert_eq!(decompose(1), None);
    assert_eq!(decompose(2), None);
    assert_eq!(decompose(3), None);
    assert_eq!(decompose(5), Some(vec![3, 4]));
    assert_eq!(decompose(7), Some(vec![2, 3, 6]));
    assert_eq!(decompose(12), Some(vec![1, 2, 3, 7, 9]));
    assert_eq!(decompose(625), Some(vec![2, 5, 8, 34, 624]));
    // 25 = 3^2 + 4^2, and 5^2 alone where five itself is allowed
    assert_eq!(search_squares(25, 4), Some(vec![3, 4]));
    assert_eq!(search_squares(25, 5), Some(vec![5]));
    assert_eq!(search_squares(25, 3), None);
    assert_eq!(search_squares(1, 0), None);
    assert_eq!(search_squares(1, 1), Some(vec![1]));
    assert_eq!(search_squares(2, 9), None);
    for n in 1..60u32 {
        if let Some(numbers) = decompose(n) {
            let sum: u64 = numbers.iter().map(|x| (*x as u64) * (*x as u64)).sum();
            assert_eq!(sum, (n as u64) * (n as u64));
            assert!(numbers.windows(2).all(|pair| pair[0] < pair[1]));
            assert!(numbers.iter().all(|x| 1 <= *x && *x < n));
        }
    }
}

#[test]
fn squares_are_taken_off_where_they_fit() {
    assert_eq!(decompose_starting_from(11, 10, vec![]), Some(vec![1, 2, 4, 10]));
    assert_eq!(decompose_starting_from(4, 3, vec![]), None);
    assert_eq!(decompose_starting_from(5, 4, vec![7, 3]), Some(vec![3, 3, 4, 7]));
    assert_eq!(decompose_starting_from(5, 5, vec![]), Some(vec![5]));
    assert_eq!(decompose_starting_from(5, 0, vec![1]), None);
    assert_eq!(decompose_starting_from(0, 0, vec![2, 1]), Some(vec![1, 2]));
    assert_eq!(decompose_starting_from(0, 9, vec![]), Some(vec![]));
}
