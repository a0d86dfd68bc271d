use katas::phone::{format_phone_numer, Error};

#[test]
fn it_for_a_valid_phone_number() {
    assert_eq!(
        format_phone_numer(&[1, 2, 3, 4, 5, 6, 7, 8, 9, 0]),
        Ok("(123) 456-7890".to_string())
    );
    assert_eq!(
        format_phone_numer(&[3, 2, 1, 5, 5, 5, 3, 1, 6, 3]),
        Ok("(321) 555-3163".to_string())
    );
}

#[test]
fn it_errors_invalid_length_phone_number() {
    assert_eq!(
        format_phone_numer(&[1, 2, 3, 4, 5, 6, 7, 8, 9, 0, 5, 6, 3]),
        Err(Error::InvalidLength)
    );
    assert_eq!(
        format_phone_numer(&[1, 2, 3, 4, 5, 6, 7,]),
        Err(Error::InvalidLength)
    );
}

#[test]
fn it_errors_for_non_single_digit_numbers() {
    assert_eq!(
        format_phone_numer(&[10, 2, 3, 4, 5, 6, 7, 8, 9, 0]),
        Err(Error::NotSingleDigitInput)
    );
}

#[test]
fn the_length_is_checked_before_the_digits() {
    assert_eq!(format_phone_numer(&[10, 12]), Err(Error::InvalidLength));
    assert_eq!(format_phone_numer(&[]), Err(Error::InvalidLength));
    assert_eq!(
        format_phone_numer(&[0, 0, 0, 0, 0, 0, 0, 0, 0, 256]),
        Err(Error::NotSingleDigitInput)
    );
}
