use katas::diamond::{concat_char, diamond, diamond_line};
use katas::duration::format_duration;
use katas::vowels::vowel_count;
use katas::wordify::{digit_to_string, double_digit_to_string, tens_digit_to_string, wordify};

#[test]
fn it_return_an_error_for_invalid_numbers() {
    assert_eq!(wordify(0), Err("Invalid Number"));
    assert_eq!(wordify(1000), Err("Invalid Number"));
    assert_eq!(wordify(1111), Err("Invalid Number"));
}

#[test]
fn numbers_are_spelled_digit_by_digit() {
    assert_eq!(wordify(9), Ok("nine".to_string()));
    assert_eq!(wordify(10), Ok("ten".to_string()));
    assert_eq!(wordify(19), Ok("nineteen".to_string()));
    assert_eq!(wordify(20), Ok("twenty".to_string()));
    assert_eq!(wordify(40), Ok("fourty".to_string()));
    assert_eq!(wordify(99), Ok("ninety nine".to_string()));
    assert_eq!(wordify(110), Ok("one hundred ten".to_string()));
    assert_eq!(wordify(120), Ok("one hundred twenty".to_string()));
    assert_eq!(wordify(999), Ok("nine hundred ninety nine".to_string()));
    assert_eq!(wordify(u32::MAX), Err("Invalid Number"));
    assert_eq!(digit_to_string("0"), Some(""));
    assert_eq!(digit_to_string("7"), Some("seven"));
    assert_eq!(digit_to_string("10"), None);
    assert_eq!(digit_to_string(""), None);
    assert_eq!(tens_digit_to_string("4"), Some("fourty"));
    assert_eq!(tens_digit_to_string("1"), None);
    assert_eq!(double_digit_to_string("13"), Some("thirteen".to_string()));
    assert_eq!(double_digit_to_string("30"), Some("thirty".to_string()));
    assert_eq!(double_digit_to_string("85"), Some("eighty five".to_string()));
}

#[test]
fn it_works_for_even_inputs() {
    assert_eq!(diamond(2), None);
    assert_eq!(diamond(4), None);
    assert_eq!(diamond(60), None);
}

#[test]
fn it_works_for_negative_inputs() {
    assert_eq!(diamond(-2), None);
    assert_eq!(diamond(-5), None);
    assert_eq!(diamond(-11), None);
}

#[test]
fn it_works_for_zero() {
    assert_eq!(diamond(0), None);
}

#[test]
fn a_single_asterik_is_a_basic_diamond() {
    let expected_output = "*\n".to_string();
    assert_eq!(diamond(1), Some(expected_output));
}

#[test]
fn it_works_with_a_small_diamond() {
    let expected_output = " * \n***\n * \n".to_string();
    assert_eq!(diamond(3), Some(expected_output));
}

#[test]
fn it_works_with_a_large_diamond() {
    let expected_output = "     *     \n    ***    \n   *****   \n  *******  \n ********* \n***********\n ********* \n  *******  \n   *****   \n    ***    \n     *     \n".to_string();
    assert_eq!(diamond(11), Some(expected_output));
}

#[test]
fn lines_are_padded_on_both_sides() {
    assert_eq!(concat_char('x', 3), "xxx");
    assert_eq!(concat_char('x', 0), "");
    assert_eq!(concat_char('x', -4), "");
    assert_eq!(diamond_line(3, 2), "  ***  \n");
    assert_eq!(diamond_line(0, 0), "\n");
    assert_eq!(diamond_line(-1, 1), "  \n");
    assert_eq!(diamond(i32::MIN), None);
    assert_eq!(diamond(5).map(|d| d.lines().count()), Some(5));
}

#[test]
fn it_for_zero() {
    assert_eq!(format_duration(0), "now".to_string());
}

#[test]
fn it_for_the_small_example() {
    assert_eq!(format_duration(62), "1 minute and 2 seconds".to_string());
}

#[test]
fn it_for_the_large_example() {
    assert_eq!(
        format_duration(3662),
        "1 hour, 1 minute and 2 seconds".to_string()
    );
}

#[test]
fn it_works_for_e_chorobas_examples() {
    assert_eq!(
        format_duration(31539601),
        "1 year, 1 hour and 1 second".to_string()
    );
    assert_eq!(
        format_duration(66711841),
        "2 years, 42 days, 3 hours, 4 minutes and 1 second".to_string()
    );
    assert_eq!(format_duration(120), "2 minutes".to_string());
}

#[test]
fn durations_name_every_unit_that_counts() {
    assert_eq!(format_duration(1), "1 second");
    assert_eq!(format_duration(59), "59 seconds");
    assert_eq!(format_duration(60), "1 minute");
    assert_eq!(format_duration(86_400), "1 day");
    assert_eq!(format_duration(31_536_000), "1 year");
    assert_eq!(
        format_duration(31_536_000 + 86_400 + 3_600 + 60 + 1),
        "1 year, 1 day, 1 hour, 1 minute and 1 second"
    );
    assert_eq!(
        format_duration(u64::MAX),
        "584942417355 years, 26 days, 7 hours, 15 seconds"
            .replace("7 hours, 15", "7 hours and 15")
    );
}

#[test]
fn it_works_with_an_empty_string() {
    assert_eq!(vowel_count(""), 0);
}

#[test]
fn it_works_non_vowel_strings() {
    assert_eq!(vowel_count("d"), 0);
    assert_eq!(vowel_count("drthpCVM  *&^"), 0);
    assert_eq!(vowel_count("1234567890!@#$%^&*()--__+="), 0);
    assert_eq!(vowel_count("NPlkv.,<>?/"), 0);
}

#[test]
fn it_works_for_strings_of_just_vowels() {
    assert_eq!(vowel_count("a"), 1);
    assert_eq!(vowel_count("A"), 1);
    assert_eq!(vowel_count("AaeEiIoOuU"), 10);
    assert_eq!(vowel_count("eoiuioEAUIAEoieaiAoe"), 20);
}

#[test]
fn it_works_for_mixed_strings() {
    assert_eq!(vowel_count("deadpool"), 4);
    assert_eq!(
        vowel_count("This is just a sentence! With some words and symbols #$%"),
        13
    );
    assert_eq!(vowel_count("TESTING OUT YELLING WITH ALL CAPS"), 9);
    assert_eq!(
        vowel_count("!@#      \nThis is THE MOST COMPLICATED test SoO farrrr"),
        12
    );
}

#[test]
fn accented_vowels_are_not_counted() {
    assert_eq!(vowel_count("àéîöü y"), 0);
    assert_eq!(vowel_count("año"), 2);
}
