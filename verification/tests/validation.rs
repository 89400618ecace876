use pattern_swap::validation::{is_decimal_digit, pattern_holds, validate, InitialGuessError};

fn symbols(text: &str) -> Vec<char> {
    text.chars().collect()
}

#[test]
fn validate_accepts_a_rearrangement_of_the_pattern() {
    assert_eq!(validate("0123", &symbols("0132")), Ok(symbols("0123")));
    assert_eq!(validate("3210", &symbols("0123")), Ok(symbols("3210")));
}

#[test]
fn validate_accepts_the_pattern_itself() {
    assert_eq!(validate("0132", &symbols("0132")), Ok(symbols("0132")));
}

#[test]
fn validate_accepts_repeated_symbols_of_the_pattern() {
    assert_eq!(validate("0000", &symbols("0123")), Ok(symbols("0000")));
    assert_eq!(validate("1133", &symbols("0123")), Ok(symbols("1133")));
}

#[test]
fn validate_rejects_a_guess_that_is_too_short() {
    assert_eq!(validate("012", &symbols("0123")), Err(InitialGuessError::WrongLength));
    assert_eq!(validate("", &symbols("0123")), Err(InitialGuessError::WrongLength));
}

#[test]
fn validate_rejects_a_guess_that_is_too_long() {
    assert_eq!(validate("01234", &symbols("0123")), Err(InitialGuessError::WrongLength));
}

#[test]
fn validate_judges_the_length_before_the_characters() {
    assert_eq!(validate("a", &symbols("0123")), Err(InitialGuessError::WrongLength));
    assert_eq!(validate("01a23", &symbols("0123")), Err(InitialGuessError::WrongLength));
    assert_eq!(validate("999", &symbols("0123")), Err(InitialGuessError::WrongLength));
}

#[test]
fn validate_rejects_a_character_that_is_no_digit() {
    assert_eq!(validate("01a2", &symbols("0123")), Err(InitialGuessError::NotADigit('a')));
    assert_eq!(validate("012 ", &symbols("0123")), Err(InitialGuessError::NotADigit(' ')));
    assert_eq!(validate("-123", &symbols("0123")), Err(InitialGuessError::NotADigit('-')));
}

#[test]
fn validate_reports_the_first_character_that_is_no_digit() {
    assert_eq!(validate("0xy2", &symbols("0123")), Err(InitialGuessError::NotADigit('x')));
    assert_eq!(validate("zzzz", &symbols("0123")), Err(InitialGuessError::NotADigit('z')));
}

#[test]
fn validate_rejects_a_digit_that_the_pattern_lacks() {
    assert_eq!(validate("0124", &symbols("0123")), Err(InitialGuessError::NotInPattern('4')));
    assert_eq!(validate("9012", &symbols("0123")), Err(InitialGuessError::NotInPattern('9')));
}

#[test]
fn validate_reports_the_first_digit_that_the_pattern_lacks() {
    assert_eq!(validate("0789", &symbols("0123")), Err(InitialGuessError::NotInPattern('7')));
}

#[test]
fn validate_judges_all_digits_before_any_membership() {
    assert_eq!(validate("9a12", &symbols("0123")), Err(InitialGuessError::NotADigit('a')));
    assert_eq!(validate("987b", &symbols("0123")), Err(InitialGuessError::NotADigit('b')));
}

#[test]
fn validate_turns_down_letters_even_where_the_pattern_holds_them() {
    let pattern = symbols("0123456789ab");
    assert_eq!(validate("0123456789ab", &pattern), Err(InitialGuessError::NotADigit('a')));
    assert_eq!(validate("012345678901", &pattern), Ok(symbols("012345678901")));
}

#[test]
fn validate_counts_characters_not_bytes() {
    // Two characters that take four bytes.
    assert_eq!(validate("éé", &symbols("0123")), Err(InitialGuessError::WrongLength));
    assert_eq!(validate("012é", &symbols("0123")), Err(InitialGuessError::NotADigit('é')));
}

#[test]
fn validate_takes_ascii_digits_only() {
    // An Arabic-Indic digit is a digit to Unicode, but none of '0' to '9'.
    assert_eq!(validate("012٣", &symbols("0123")), Err(InitialGuessError::NotADigit('٣')));
}

#[test]
fn decimal_digits_are_zero_to_nine() {
    for c in "0123456789".chars() {
        assert!(is_decimal_digit(c));
    }
    for c in "/:aZ-_ é٣".chars() {
        assert!(!is_decimal_digit(c));
    }
}

#[test]
fn pattern_holds_its_symbols_only() {
    let pattern = symbols("0132");
    assert!(pattern_holds(&pattern, '0'));
    assert!(pattern_holds(&pattern, '2'));
    assert!(!pattern_holds(&pattern, '4'));
    assert!(!pattern_holds(&symbols(""), '0'));
}
