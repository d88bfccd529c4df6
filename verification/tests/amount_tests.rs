use oxydized_money::Amount;
use oxydized_money::AmountResult;
use oxydized_money::Currency;
use oxydized_money::CurrencyError;
use oxydized_money::Decimal;
use std::cmp::Ordering;

fn dec(mantissa: i128, scale: u32) -> Decimal {
    Decimal::new(mantissa, scale)
}

fn eur(n: i128) -> Amount {
    Amount::new(dec(n, 0), Currency::eur())
}

fn eur_frac(mantissa: i128, scale: u32) -> Amount {
    Amount::new(dec(mantissa, scale), Currency::eur())
}

fn usd(n: i128) -> Amount {
    Amount::new(dec(n, 0), Currency::usd())
}

fn usd_frac(mantissa: i128, scale: u32) -> Amount {
    Amount::new(dec(mantissa, scale), Currency::usd())
}

#[test]
fn test_precision() {
    assert_eq!(eur_frac(12, 1).mul_dec(&dec(1, 0)), eur_frac(12, 1));
    assert_eq!(eur_frac(12, 1).mul_dec(&dec(1, 0).neg()), eur_frac(-12, 1));
    assert_eq!(eur_frac(12, 1).mul_dec(&dec(1, 0).neg()), eur_frac(12, 1).neg());
    assert_eq!(
        eur_frac(12, 1).mul_dec(&dec(1, 0).neg()).mul_dec(&dec(10, 0)),
        eur(12).neg()
    );
}

#[test]
fn amount_test_display() {
    assert_eq!("€ 2.00", eur(2).display());
    assert_eq!("$ 5.40", usd_frac(54, 1).display());
    let amount = usd(2).div_dec(&dec(3, 0)).add_amount(&usd(1)).into_inner().unwrap();
    assert_eq!("$ 1.66", amount.display());
    assert_eq!("$ 1.666", amount.display_precision(3));
}

#[test]
fn amount_test_sub() {
    assert_eq!(eur(3).sub_amount(&eur(5)), eur(2).neg());
    assert_eq!(
        eur(3).sub_amount(&usd(5)),
        CurrencyError::Mismatch(Currency::eur(), Currency::usd())
    );
    assert_eq!(eur(10).sub_amount(&eur(5)), eur(5));
}

#[test]
fn amount_ord_amount() {
    assert!(matches!(eur(1).compare(&eur(1)), Some(Ordering::Equal)));
    assert!(matches!(eur(1).compare(&eur(2)), Some(Ordering::Less)));
    assert!(matches!(eur(3).compare(&eur(2)), Some(Ordering::Greater)));
    assert!(matches!(eur(1).compare(&usd(1)), None));
    assert!(matches!(eur(1).compare(&usd(2)), None));
    assert!(matches!(eur(3).compare(&usd(2)), None));
}

#[test]
fn test_as_ref_decimal() {
    assert!(eur(-1).is_sign_negative());
    assert!(eur(0).is_zero());
}

#[test]
fn amount_test_serde() {
    assert_eq!(
        oxydized_money::encode_amount(&eur(1)),
        "{\"value\":\"1\",\"currency\":\"EUR\"}"
    );
    assert_eq!(
        oxydized_money::decode_amount("{\"value\":\"1\",\"currency\":\"EUR\"}"),
        Some(eur(1))
    );
}

#[test]
fn amount_value_equality_ignores_trailing_zeros() {
    assert_eq!(eur_frac(10, 1), eur_frac(100, 2));
    assert_ne!(eur_frac(10, 1), usd_frac(10, 1));
    assert_ne!(eur_frac(10, 1), eur_frac(11, 1));
}

#[test]
fn amount_abs_and_converted_to() {
    assert_eq!(usd_frac(-105, 1).abs(), usd_frac(105, 1));
    assert_eq!(eur_frac(106, 1).abs(), eur_frac(106, 1));
    let exchange_rate = dec(9, 1);
    assert_eq!(
        eur_frac(105, 1).converted_to(Currency::usd(), exchange_rate),
        usd_frac(105, 1).mul_dec(&exchange_rate)
    );
    let result: AmountResult = AmountResult::from(eur(10)).converted_to(Currency::usd(), dec(2, 0));
    assert_eq!(result, usd(20));
    assert_eq!(
        AmountResult::unknown().converted_to(Currency::usd(), dec(2, 0)),
        AmountResult::unknown()
    );
}

#[test]
fn currency_lookup() {
    assert_eq!(Currency::from_numeric(978), Some(Currency::eur()));
    assert_eq!(Currency::from_numeric(840), Some(Currency::usd()));
    assert_eq!(Currency::from_numeric(0), None);
    assert_eq!(Currency::from_code("EUR"), Some(Currency::eur()));
    assert_eq!(Currency::from_code("???"), None);
    assert_eq!(Currency::eur().code(), "EUR");
    assert_eq!(Currency::usd().symbol(), "$");
}
