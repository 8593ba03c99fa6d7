use phash::config::{parse_secret_length, ConfigError, MIN_SECRET_LEN, RECOMMENDED_MAX_SECRET_LEN};

#[test]
fn length_is_read() {
    assert_eq!(parse_secret_length("32"), Ok(32));
    assert_eq!(parse_secret_length("48"), Ok(48));
    assert_eq!(parse_secret_length("384"), Ok(384));
    assert_eq!(parse_secret_length("4096"), Ok(4096));
    assert_eq!(parse_secret_length("100000"), Ok(100000));
}

#[test]
fn plus_sign_and_leading_zeros_are_read() {
    assert_eq!(parse_secret_length("+32"), Ok(32));
    assert_eq!(parse_secret_length("0032"), Ok(32));
    assert_eq!(parse_secret_length("+0064"), Ok(64));
}

#[test]
fn length_under_minimum_is_refused() {
    assert_eq!(MIN_SECRET_LEN, 32);
    assert_eq!(RECOMMENDED_MAX_SECRET_LEN, 4096);
    assert_eq!(parse_secret_length("31"), Err(ConfigError::TooShort));
    assert_eq!(parse_secret_length("0"), Err(ConfigError::TooShort));
    assert_eq!(parse_secret_length("+000"), Err(ConfigError::TooShort));
}

#[test]
fn text_that_is_no_number_is_refused() {
    for text in ["", "+", "-", "-32", "++32", "32 ", " 32", "3_2", "0x20", "32.0", "12a", "a12", "3+2", "３２"] {
        assert_eq!(parse_secret_length(text), Err(ConfigError::NotDecimal), "{:?}", text);
    }
}

#[test]
fn length_beyond_usize_is_refused() {
    assert_eq!(parse_secret_length(&usize::MAX.to_string()), Ok(usize::MAX));
    let beyond = format!("{}0", usize::MAX);
    assert_eq!(parse_secret_length(&beyond), Err(ConfigError::TooLarge));
    let next = (usize::MAX as u128 + 1).to_string();
    assert_eq!(parse_secret_length(&next), Err(ConfigError::TooLarge));
    assert_eq!(parse_secret_length("99999999999999999999999999999999999999999"), Err(ConfigError::TooLarge));
    assert_eq!(parse_secret_length("99999999999999999999999999999999999999999x"), Err(ConfigError::NotDecimal));
}

#[test]
fn length_agrees_with_std() {
    for text in ["32", "+32", "0032", "+", "", "-0", "33", "1024", "+1024"] {
        let ours = parse_secret_length(text).ok();
        let std = text.parse::<usize>().ok().filter(|length| *length >= 32);
        assert_eq!(ours, std, "{:?}", text);
    }
}
