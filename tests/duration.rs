use youkebox::duration::{duration_to_seconds, DurationError};

fn secs(s: &str) -> Result<u64, DurationError> {
    duration_to_seconds(&s.to_string())
}

#[test]
fn hours_minutes_seconds() {
    assert_eq!(secs("PT1H10M10S"), Ok(4210));
}

#[test]
fn seconds_only() {
    assert_eq!(secs("PT30S"), Ok(30));
}

#[test]
fn minutes_and_seconds() {
    assert_eq!(secs("PT4M13S"), Ok(253));
}

#[test]
fn lone_component_counts_as_seconds() {
    // Weighting goes by position, not by the unit letter.
    assert_eq!(secs("PT2M"), Ok(2));
    assert_eq!(secs("PT1H5S"), Ok(65));
}

#[test]
fn no_numbers_is_zero() {
    assert_eq!(secs(""), Ok(0));
    assert_eq!(secs("PT"), Ok(0));
}

#[test]
fn plain_number() {
    assert_eq!(secs("42"), Ok(42));
}

#[test]
fn days_weigh_by_position() {
    assert_eq!(secs("P1DT1H0M0S"), Ok(219600));
}

#[test]
fn leading_zeros() {
    assert_eq!(secs("PT007M05S"), Ok(425));
}

#[test]
fn fragment_beyond_i32_is_invalid() {
    assert_eq!(secs("PT2147483647S"), Ok(2147483647));
    assert_eq!(secs("PT2147483648S"), Err(DurationError::InvalidNumber));
}

#[test]
fn non_ascii_numeric_is_invalid() {
    // U+0663 is an Arabic-Indic digit: numeric, but not a decimal ASCII digit.
    assert_eq!(secs("PT1\u{663}S"), Err(DurationError::InvalidNumber));
}

#[test]
fn non_ascii_letter_separates() {
    assert_eq!(secs("1\u{e9}2"), Ok(62));
}

#[test]
fn total_beyond_u64_overflows() {
    let s = "1:0:0:0:0:0:0:0:0:0:0:0";
    assert_eq!(secs(s), Err(DurationError::Overflow));
}

#[test]
fn invalid_wins_over_overflow() {
    let s = "1:0:0:0:0:0:0:0:0:0:0:0:99999999999";
    assert_eq!(secs(s), Err(DurationError::InvalidNumber));
}
