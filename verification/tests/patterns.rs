use katas::triple_double::{triple_double, triple_doubled_in};

#[test]
fn it_for_true_examples() {
    assert_eq!(triple_double(451999277, 41177722899), true);
    assert_eq!(triple_double(666789, 12345667), true);
}

#[test]
fn it_for_false_examples() {
    assert_eq!(triple_double(1222345, 12345), false);
    assert_eq!(triple_double(12345, 12345), false);
}

#[test]
fn triples_are_looked_for_in_steps_of_three() {
    // 1222345 reads as 122 | 234: the triple 222 is not seen.
    assert_eq!(triple_double(1222345, 22), false);
    assert_eq!(triple_double(222, 22), true);
    assert_eq!(triple_double(222, 2), false);
    assert_eq!(triple_double(123_000, 100), true);
    assert_eq!(triple_double(0, 0), false);
    assert_eq!(triple_double(u64::MAX, u64::MAX), false);
    assert_eq!(triple_double(11_177_777_777, 77), true);
}

#[test]
fn matches_are_searched_in_the_text_as_patterns() {
    let groups = |text: &str| vec![Some(text.to_string())];
    assert!(triple_doubled_in(&vec![groups("123"), groups("555")], "a55b"));
    assert!(!triple_doubled_in(&vec![groups("123"), groups("555")], "a5b5"));
    assert!(!triple_doubled_in(&vec![groups("5555")], "55"));
    assert!(!triple_doubled_in(&vec![vec![None], vec![]], "55"));
    assert!(!triple_doubled_in(&vec![], "55"));
    // the first two characters are a pattern: two dots match any two characters
    assert!(triple_doubled_in(&vec![groups("...")], "ab"));
    // and a pattern that does not compile matches nothing
    assert!(!triple_doubled_in(&vec![groups("(((")], "(("));
}
