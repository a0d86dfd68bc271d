use katas::cubic::is_cubic;
use katas::next_largest::next_largest;
use katas::number_check::number_property;
use katas::wordify::wordify;

#[test]
fn it_works_for_the_examples() {
    assert_eq!(is_cubic(0), true);
    assert_eq!(is_cubic(1), true);
    assert_eq!(is_cubic(153), true);
}

#[test]
fn lib_it_works_for_the_examples() {
    assert_eq!(next_largest(12), Some(21));
    assert_eq!(next_largest(2019), Some(2091));
    assert_eq!(next_largest(513), Some(531));

    assert_eq!(wordify(1), Ok("one".to_string()));
    assert_eq!(wordify(12), Ok("twelve".to_string()));
    assert_eq!(wordify(17), Ok("seventeen".to_string()));
    assert_eq!(wordify(56), Ok("fifty six".to_string()));
    assert_eq!(wordify(90), Ok("ninety".to_string()));
    assert_eq!(wordify(326), Ok("three hundred twenty six".to_string()));

    assert_eq!(number_property(7), (true, false, false));
    assert_eq!(number_property(10), (false, true, true));
}
