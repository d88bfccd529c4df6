use oxydized_money::Currency;
use oxydized_money::CurrencyError;

#[test]
fn error_test_display() {
    assert_eq!(CurrencyError::Unknown.message(), "unknown currency");
    assert_eq!(CurrencyError::DivideByZero.message(), "divide by zero");
    assert_eq!(
        CurrencyError::Mismatch(Currency::usd(), Currency::eur()).message(),
        "mismatch currency 'USD' and 'EUR'"
    );
    assert_eq!(
        CurrencyError::Mismatch(Currency::eur(), Currency::usd()).message(),
        "mismatch currency 'EUR' and 'USD'"
    );
}

#[test]
fn error_test_serde() {
    assert_eq!(oxydized_money::encode_error(&CurrencyError::Unknown), "\"Unknown\"");
    assert_eq!(
        oxydized_money::encode_error(&CurrencyError::DivideByZero),
        "\"DivideByZero\""
    );
    assert_eq!(
        oxydized_money::encode_error(&CurrencyError::Mismatch(Currency::eur(), Currency::usd())),
        "{\"Mismatch\":[\"EUR\",\"USD\"]}"
    );

    assert_eq!(
        oxydized_money::decode_error("\"Unknown\""),
        Some(CurrencyError::Unknown)
    );
    assert_eq!(
        oxydized_money::decode_error("\"DivideByZero\""),
        Some(CurrencyError::DivideByZero)
    );
    assert_eq!(
        oxydized_money::decode_error("{\"Mismatch\":[\"USD\",\"EUR\"]}"),
        Some(CurrencyError::Mismatch(Currency::usd(), Currency::eur()))
    );
}

#[test]
fn error_decode_rejects_malformed() {
    assert_eq!(oxydized_money::decode_error(""), None);
    assert_eq!(oxydized_money::decode_error("\"unknown\""), None);
    assert_eq!(oxydized_money::decode_error("{\"Mismatch\":[\"EUR\",\"???\"]}"), None);
    assert_eq!(oxydized_money::decode_error("{\"Mismatch\":[\"EUR\",\"USD\"] }"), None);
}
