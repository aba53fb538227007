use rgb20::contract::{is_ticker, str_eq, ticker_validator, TICKER_RULE};

#[test]
fn ticker_rules() {
    assert_eq!(ticker_validator("ABC"), Ok(()));
    assert!(ticker_validator("AB").is_err());
    assert!(ticker_validator("TOOLONGTICK").is_err());
    assert!(ticker_validator("abc").is_err());
}

#[test]
fn ticker_edges() {
    assert!(is_ticker("ABCDEFGH"));
    assert!(!is_ticker("ABCDEFGHI"));
    assert!(!is_ticker("AB C"));
    assert!(!is_ticker("ABÇ"));
    assert!(!is_ticker(""));
    assert!(!is_ticker("A[C"));
    assert!(!is_ticker("A@C"));
}

#[test]
fn ticker_message() {
    assert_eq!(
        ticker_validator("x"),
        Err("Ticker name must be between 3 and 8 chars, contain no spaces and consist only of capital letters".to_string())
    );
    assert_eq!(ticker_validator("abc"), Err(TICKER_RULE.to_string()));
}

#[test]
fn string_equality() {
    assert!(str_eq("rgbsh1", "rgbsh1"));
    assert!(!str_eq("rgbsh1", "rgbsh2"));
    assert!(!str_eq("rgb", "rgbsh"));
    assert!(str_eq("", ""));
}
