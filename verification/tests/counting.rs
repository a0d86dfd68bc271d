use katas::factorial::{
    count_occurances, fac_decomp_string, factorial_decomposition, prime_decomposition,
};
use katas::next_largest::next_largest;
use katas::shortest_step::{shortest_step_count_down, shortest_step_exhaustive_recurse};
use katas::soda::{find_index_iter, whos_soda};

#[test]
fn it_works_for_examples_that_have_no_largest() {
    assert_eq!(next_largest(4), None);
    assert_eq!(next_largest(100), None);
    assert_eq!(next_largest(9876), None);
}

#[test]
fn it_works_for_large_numebrs() {
    assert_eq!(next_largest(36852367), Some(36852376));
    assert_eq!(next_largest(123456789), Some(123456798));
    assert_eq!(next_largest(5010), Some(5100));
}

#[test]
fn the_rightmost_rising_pair_is_swapped() {
    assert_eq!(next_largest(0), None);
    assert_eq!(next_largest(1243), Some(1423));
    assert_eq!(next_largest(1000000009), Some(1000000090));
    assert_eq!(next_largest(4294967259), Some(u32::MAX));
    assert_eq!(next_largest(4000000019), Some(4000000091));
}

#[test]
fn all_algos_work_for_three() {
    assert_eq!(shortest_step_exhaustive_recurse(3), Some(2));
    assert_eq!(shortest_step_count_down(3), Some(2));
}

#[test]
fn all_algos_work_for_twelve() {
    assert_eq!(shortest_step_exhaustive_recurse(12), Some(4));
    assert_eq!(shortest_step_count_down(12), Some(4));
}

#[test]
fn all_algos_match_up_to_200() {
    for i in 0..200 {
        assert_eq!(
            shortest_step_count_down(i),
            shortest_step_exhaustive_recurse(i),
            "Algos don't match for {}",
            i
        );
    }
}

#[test]
fn steps_are_counted_from_one() {
    assert_eq!(shortest_step_count_down(0), None);
    assert_eq!(shortest_step_exhaustive_recurse(0), None);
    assert_eq!(shortest_step_count_down(1), Some(0));
    assert_eq!(shortest_step_exhaustive_recurse(1), Some(0));
    assert_eq!(shortest_step_count_down(2), Some(1));
    assert_eq!(shortest_step_count_down(16), Some(4));
    assert_eq!(shortest_step_count_down(15), Some(6));
    assert_eq!(shortest_step_count_down(u64::MAX), Some(126));
}

#[test]
fn it_for_first_few_groups_with_3_names() {
    assert_eq!(whos_soda(&["a", "b", "c"], 1), "a");
    assert_eq!(whos_soda(&["a", "b", "c"], 2), "b");
    assert_eq!(whos_soda(&["a", "b", "c"], 3), "c");
    assert_eq!(whos_soda(&["a", "b", "c"], 4), "a");
    assert_eq!(whos_soda(&["a", "b", "c"], 5), "a");
    assert_eq!(whos_soda(&["a", "b", "c"], 6), "b");
    assert_eq!(whos_soda(&["a", "b", "c"], 7), "b");
    assert_eq!(whos_soda(&["a", "b", "c"], 8), "c");
    assert_eq!(whos_soda(&["a", "b", "c"], 9), "c");
}

#[test]
fn it_for_first_few_groups_with_5_names() {
    assert_eq!(whos_soda(&["a", "b", "c", "d", "e"], 1), "a");
    assert_eq!(whos_soda(&["a", "b", "c", "d", "e"], 2), "b");
    assert_eq!(whos_soda(&["a", "b", "c", "d", "e"], 3), "c");
    assert_eq!(whos_soda(&["a", "b", "c", "d", "e"], 4), "d");
    assert_eq!(whos_soda(&["a", "b", "c", "d", "e"], 5), "e");
    assert_eq!(whos_soda(&["a", "b", "c", "d", "e"], 6), "a");
    assert_eq!(whos_soda(&["a", "b", "c", "d", "e"], 7), "a");
    assert_eq!(whos_soda(&["a", "b", "c", "d", "e"], 8), "b");
    assert_eq!(whos_soda(&["a", "b", "c", "d", "e"], 9), "b");
    assert_eq!(whos_soda(&["a", "b", "c", "d", "e"], 10), "c");
    assert_eq!(whos_soda(&["a", "b", "c", "d", "e"], 11), "c");
    assert_eq!(whos_soda(&["a", "b", "c", "d", "e"], 12), "d");
    assert_eq!(whos_soda(&["a", "b", "c", "d", "e"], 13), "d");
    assert_eq!(whos_soda(&["a", "b", "c", "d", "e"], 14), "e");
    assert_eq!(whos_soda(&["a", "b", "c", "d", "e"], 15), "e");
}

#[test]
fn rounds_grow_by_one_soda_each() {
    // one person: rounds end at sodas 1, 3, 6, 10
    for soda in 1..=10 {
        assert_eq!(find_index_iter(1, soda), 0);
    }
    // two people: round 3 covers sodas 7..=12, three each
    assert_eq!(find_index_iter(2, 7), 0);
    assert_eq!(find_index_iter(2, 9), 0);
    assert_eq!(find_index_iter(2, 10), 1);
    assert_eq!(find_index_iter(2, 12), 1);
    assert_eq!(find_index_iter(2, 13), 0);
    assert!(find_index_iter(7, u64::MAX) < 7);
    assert_eq!(find_index_iter(u64::MAX, u64::MAX), u64::MAX - 1);
}

fn sorted_counted_prime_decomp(n: u32) -> Vec<(u32, u32)> {
    let mut output: Vec<(u32, u32)> = count_occurances(prime_decomposition(n));
    output.sort();
    output
}

#[test]
fn prime_decomposition_works_for_prime_numbers() {
    assert_eq!(sorted_counted_prime_decomp(2), vec![(2, 1)]);
    assert_eq!(sorted_counted_prime_decomp(3), vec![(3, 1)]);
    assert_eq!(sorted_counted_prime_decomp(5), vec![(5, 1)]);
    assert_eq!(sorted_counted_prime_decomp(7), vec![(7, 1)]);
    assert_eq!(sorted_counted_prime_decomp(11), vec![(11, 1)]);
}

#[test]
fn prime_decomposition_works_for_factors_of_2() {
    assert_eq!(sorted_counted_prime_decomp(2), vec![(2, 1)]);
    assert_eq!(sorted_counted_prime_decomp(4), vec![(2, 2)]);
    assert_eq!(sorted_counted_prime_decomp(8), vec![(2, 3)]);
    assert_eq!(sorted_counted_prime_decomp(16), vec![(2, 4)]);
}

#[test]
fn prime_decomposition_works_for_more_complex_numbers() {
    assert_eq!(sorted_counted_prime_decomp(10), vec![(2, 1), (5, 1)]);
    assert_eq!(sorted_counted_prime_decomp(6), vec![(2, 1), (3, 1)]);
    assert_eq!(sorted_counted_prime_decomp(15), vec![(3, 1), (5, 1)]);
}

#[test]
fn simple_factorial_decomposition() {
    assert_eq!(factorial_decomposition(2), vec![(2, 1)]);
    assert_eq!(factorial_decomposition(3), vec![(2, 1), (3, 1)]);
    assert_eq!(factorial_decomposition(4), vec![(2, 3), (3, 1)]);
    assert_eq!(factorial_decomposition(5), vec![(2, 3), (3, 1), (5, 1)]);
}

#[test]
fn factorial_decomposition_of_edge_cases() {
    assert_eq!(factorial_decomposition(1), vec![(1, 1)]);
    assert_eq!(factorial_decomposition(0), vec![(1, 1)]);
}

#[test]
fn factorial_decomposition_of_examples() {
    assert_eq!(
        factorial_decomposition(12),
        vec![(2, 10), (3, 5), (5, 2), (7, 1), (11, 1)]
    );
    assert_eq!(
        factorial_decomposition(22),
        vec![
            (2, 19),
            (3, 9),
            (5, 4),
            (7, 3),
            (11, 2),
            (13, 1),
            (17, 1),
            (19, 1)
        ]
    );
    assert_eq!(
        factorial_decomposition(25),
        vec![
            (2, 22),
            (3, 10),
            (5, 6),
            (7, 3),
            (11, 2),
            (13, 1),
            (17, 1),
            (19, 1),
            (23, 1),
        ]
    );
}

#[test]
fn formatting_works() {
    assert_eq!(fac_decomp_string(0), "n = 0; decomp(0) -> \"1\"");
    assert_eq!(fac_decomp_string(1), "n = 1; decomp(1) -> \"1\"");
    assert_eq!(
        fac_decomp_string(12),
        "n = 12; decomp(12) -> \"2^10 * 3^5 * 5^2 * 7 * 11\""
    );
    assert_eq!(
        fac_decomp_string(22),
        "n = 22; decomp(22) -> \"2^19 * 3^9 * 5^4 * 7^3 * 11^2 * 13 * 17 * 19\""
    );
    assert_eq!(
        fac_decomp_string(25),
        "n = 25; decomp(25) -> \"2^22 * 3^10 * 5^6 * 7^3 * 11^2 * 13 * 17 * 19 * 23\""
    );
}

#[test]
fn factors_come_in_growing_order() {
    assert_eq!(prime_decomposition(0), Vec::<u32>::new());
    assert_eq!(prime_decomposition(1), Vec::<u32>::new());
    assert_eq!(prime_decomposition(360), vec![2, 2, 2, 3, 3, 5]);
    assert_eq!(prime_decomposition(97), vec![97]);
    assert_eq!(prime_decomposition(65536).len(), 16);
    assert_eq!(count_occurances(vec![5, 3, 5, 2, 5, 3]), vec![(2, 1), (3, 2), (5, 3)]);
    assert_eq!(count_occurances(vec![]), vec![]);
    let product: u64 = factorial_decomposition(10)
        .iter()
        .map(|(p, e)| (*p as u64).pow(*e))
        .product();
    assert_eq!(product, 3_628_800);
}
