use oxydized_money::Amount;
use oxydized_money::Currency;
use oxydized_money::CurrencyError;
use oxydized_money::Decimal;

fn dec(mantissa: i128, scale: u32) -> Decimal {
    Decimal::new(mantissa, scale)
}

#[test]
fn decimal_render_exact() {
    assert_eq!(oxydized_money::render_decimal(&dec(1, 0)), "1");
    assert_eq!(oxydized_money::render_decimal(&dec(105, 1)), "10.5");
    assert_eq!(oxydized_money::render_decimal(&dec(-1234, 3)), "-1.234");
    assert_eq!(oxydized_money::render_decimal(&dec(10, 2)), "0.10");
    assert_eq!(oxydized_money::render_decimal(&dec(0, 0)), "0");
}

#[test]
fn decimal_round_trip() {
    let values = [
        dec(0, 0),
        dec(1, 0),
        dec(-1, 0),
        dec(105, 1),
        dec(-1234, 3),
        dec(10, 2),
        dec(79228162514264337593543950335, 28),
    ];
    for v in values.iter() {
        let text = oxydized_money::render_decimal(v);
        assert_eq!(oxydized_money::decode_decimal(text.as_str()), Some(*v));
    }
}

#[test]
fn decimal_decode_rejects_malformed() {
    assert_eq!(oxydized_money::decode_decimal(""), None);
    assert_eq!(oxydized_money::decode_decimal("-"), None);
    assert_eq!(oxydized_money::decode_decimal("1."), None);
    assert_eq!(oxydized_money::decode_decimal(".5"), None);
    assert_eq!(oxydized_money::decode_decimal("007"), None);
    assert_eq!(oxydized_money::decode_decimal("-0"), None);
    assert_eq!(oxydized_money::decode_decimal("1.2.3"), None);
    assert_eq!(oxydized_money::decode_decimal("12a"), None);
    assert_eq!(oxydized_money::decode_decimal("1,5"), None);
}

#[test]
fn amount_round_trip() {
    let samples = [
        Amount::new(dec(1, 0), Currency::eur()),
        Amount::new(dec(-1234, 3), Currency::usd()),
        Amount::new(dec(0, 2), Currency::eur()),
    ];
    for a in samples.iter() {
        let text = oxydized_money::encode_amount(a);
        assert_eq!(oxydized_money::decode_amount(text.as_str()), Some(*a));
    }
}

#[test]
fn error_round_trip() {
    let samples = [
        CurrencyError::Unknown,
        CurrencyError::DivideByZero,
        CurrencyError::Mismatch(Currency::eur(), Currency::usd()),
        CurrencyError::Mismatch(Currency::usd(), Currency::eur()),
    ];
    for e in samples.iter() {
        let text = oxydized_money::encode_error(e);
        assert_eq!(oxydized_money::decode_error(text.as_str()), Some(*e));
    }
}

#[test]
fn amount_decode_rejects_malformed() {
    assert_eq!(oxydized_money::decode_amount(""), None);
    assert_eq!(
        oxydized_money::decode_amount("{\"value\":\"x\",\"currency\":\"EUR\"}"),
        None
    );
    assert_eq!(
        oxydized_money::decode_amount("{\"value\":\"1\",\"currency\":\"???\"}"),
        None
    );
    assert_eq!(
        oxydized_money::decode_amount("{\"value\":\"01\",\"currency\":\"EUR\"}"),
        None
    );
}
