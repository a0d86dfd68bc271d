use katas::calculator::{calculate, has_any_operands, CalcError};

#[test]
fn it_works_for_single_numbers() {
    assert_eq!(calculate("2"), Ok(2));
    assert_eq!(calculate("5"), Ok(5));
    assert_eq!(calculate("11"), Ok(11));
}

#[test]
fn it_works_for_single_addition() {
    assert_eq!(calculate("2 + 2"), Ok(4));
    assert_eq!(calculate("5 + 4"), Ok(9));
    assert_eq!(calculate("11 + 4"), Ok(15));
}

#[test]
fn it_works_for_multiple_addition() {
    assert_eq!(calculate("2 + 2 + 2"), Ok(6));
    assert_eq!(calculate("5 + 4 + 3"), Ok(12));
    assert_eq!(calculate("11 + 4 + 1"), Ok(16));
}

// Sums and differences are of one rank and are taken from the left, so
// 5 - 4 + 3 is (5 - 4) + 3 = 4 and 11 - 4 + 1 is (11 - 4) + 1 = 8. No reading
// that gives 2 for 2 + 2 - 2 gives 8 and 12 for them.
#[test]
fn it_works_for_mixed_addition_and_subtraction() {
    assert_eq!(calculate("2 + 2 - 2"), Ok(2));
    assert_eq!(calculate("5 - 4 + 3"), Ok(4));
    assert_eq!(calculate("11 - 4 + 1"), Ok(8));
}

#[test]
fn it_works_for_the_dev_to_example() {
    assert_eq!(calculate("2 / 2 + 3 * 4 - 6"), Ok(7));
}

#[test]
fn products_come_first_and_equal_ranks_from_the_left() {
    assert_eq!(calculate("2+3*4"), Ok(14));
    assert_eq!(calculate("10 - 2 - 3"), Ok(5));
    assert_eq!(calculate("100 / 10 / 5"), Ok(2));
    assert_eq!(calculate("7 / 2 * 2"), Ok(6));
    assert_eq!(calculate("2 * 7 / 2"), Ok(7));
    assert_eq!(calculate("  42  "), Ok(42));
    assert_eq!(calculate("4294967295 + 0"), Ok(u32::MAX));
    assert_eq!(calculate("65536 * 65535 + 65535"), Ok(u32::MAX));
    assert_eq!(calculate("0 * 4294967295"), Ok(0));
    assert_eq!(calculate("1 - 1"), Ok(0));
}

#[test]
fn what_cannot_be_calculated_is_turned_down() {
    assert_eq!(calculate(""), Err(CalcError::NotANumber));
    assert_eq!(calculate("two"), Err(CalcError::NotANumber));
    assert_eq!(calculate("2 +"), Err(CalcError::NotANumber));
    assert_eq!(calculate("+ 2"), Err(CalcError::NotANumber));
    assert_eq!(calculate("-2"), Err(CalcError::NotANumber));
    assert_eq!(calculate("2 2"), Err(CalcError::NotANumber));
    assert_eq!(calculate("2\t+ 2"), Err(CalcError::NotANumber));
    assert_eq!(calculate("(2 + 2)"), Err(CalcError::NotANumber));
    assert_eq!(calculate("4294967296"), Err(CalcError::NotANumber));
    assert_eq!(calculate("1 / 0"), Err(CalcError::DivisionByZero));
    assert_eq!(calculate("1 / 0 + x"), Err(CalcError::DivisionByZero));
    assert_eq!(calculate("x + 1 / 0"), Err(CalcError::NotANumber));
    assert_eq!(calculate("1 - 2"), Err(CalcError::OutOfRange));
    assert_eq!(calculate("1 - 2 + 5"), Err(CalcError::OutOfRange));
    assert_eq!(calculate("4294967295 + 1"), Err(CalcError::OutOfRange));
    assert_eq!(calculate("65536 * 65536"), Err(CalcError::OutOfRange));
    assert_eq!(calculate("65536 * 65536 - 1"), Err(CalcError::OutOfRange));
}

#[test]
fn a_plus_sign_is_looked_for() {
    assert!(has_any_operands("1 + 1"));
    assert!(has_any_operands("+"));
    assert!(!has_any_operands("1 - 1"));
    assert!(!has_any_operands(""));
}
