use oxydized_money::Amount;
use oxydized_money::AmountResult;
use oxydized_money::Currency;
use oxydized_money::CurrencyError;
use oxydized_money::Decimal;

fn dec(mantissa: i128, scale: u32) -> Decimal {
    Decimal::new(mantissa, scale)
}

fn eur(n: i128) -> Amount {
    Amount::new(dec(n, 0), Currency::eur())
}

fn usd(n: i128) -> Amount {
    Amount::new(dec(n, 0), Currency::usd())
}

fn usd_frac(mantissa: i128, scale: u32) -> Amount {
    Amount::new(dec(mantissa, scale), Currency::usd())
}

fn w_a(a: Amount) -> AmountResult {
    AmountResult::from(a)
}

fn w_e(e: CurrencyError) -> AmountResult {
    AmountResult::from(e)
}

fn mismatch_eur_usd() -> CurrencyError {
    CurrencyError::Mismatch(Currency::eur(), Currency::usd())
}

fn mismatch_usd_eur() -> CurrencyError {
    CurrencyError::Mismatch(Currency::usd(), Currency::eur())
}

#[test]
fn result_test_display() {
    assert_eq!(w_a(eur(2)).display(), "\u{20ac} 2.00");
    assert_eq!(w_a(usd_frac(54, 1)).display(), "$ 5.40");
    let amount = usd(2).div_dec(&dec(3, 0)).add_amount(&usd(1));
    assert_eq!("$ 1.66", amount.display());
    assert_eq!("$ 1.666", amount.display_precision(3));

    assert_eq!(w_e(CurrencyError::Unknown).display(), "unknown currency");
    assert_eq!(
        w_e(mismatch_usd_eur()).display(),
        "mismatch currency 'USD' and 'EUR'"
    );
    assert_eq!(
        w_e(mismatch_eur_usd()).display(),
        "mismatch currency 'EUR' and 'USD'"
    );
}

#[test]
fn test_deref() {
    assert!(w_e(mismatch_eur_usd()).is_err());
    assert!(w_e(mismatch_usd_eur()).is_err());
    assert!(w_e(CurrencyError::Unknown).is_err());
    assert!(w_a(eur(19)).is_ok());
}

#[test]
fn test_from() {
    let res = w_a(Amount::new(dec(10, 0), Currency::eur()));
    let amount = res.into_inner().unwrap();
    assert_eq!(amount.value(), dec(10, 0));

    let res = w_e(CurrencyError::Unknown);
    assert_eq!(res.into_inner().unwrap_err(), CurrencyError::Unknown)
}

#[test]
fn test_sum() {
    let sum = AmountResult::sum_amounts(&vec![eur(1), eur(2)]);
    assert_eq!(sum, eur(3));

    let sum = AmountResult::sum_amounts(&vec![eur(1), eur(2)]);
    assert_eq!(sum, eur(3));

    let sum = AmountResult::sum_amounts(&Vec::<Amount>::from([]));
    assert_eq!(sum, w_e(CurrencyError::Unknown));

    let sum = AmountResult::sum_amounts(&vec![eur(2), usd(3)]);
    assert_eq!(sum, w_e(mismatch_eur_usd()));

    let sum = AmountResult::sum_results(&Vec::<AmountResult>::from([]));
    assert_eq!(sum, w_e(CurrencyError::Unknown));

    let sum = AmountResult::sum_results(&vec![w_e(mismatch_eur_usd())]);
    assert_eq!(sum, w_e(mismatch_eur_usd()));

    let sum = AmountResult::sum_results(&vec![w_e(CurrencyError::Unknown)]);
    assert_eq!(sum, w_e(CurrencyError::Unknown));

    let sum = AmountResult::sum_results(&vec![
        eur(1).into(),
        w_e(CurrencyError::Unknown),
        eur(2).into(),
    ]);
    assert_eq!(sum, eur(3));

    let sum = AmountResult::sum_results(&vec![
        eur(1).into(),
        w_e(mismatch_usd_eur()),
        eur(2).into(),
    ]);
    assert_eq!(sum, w_e(mismatch_usd_eur()));

    let sum = AmountResult::sum_amounts(&vec![eur(2), usd(3), usd(4)]);
    assert_eq!(sum, w_e(mismatch_eur_usd()));
}

#[test]
fn result_test_sub() {
    assert_eq!(eur(2).sub_amount(&eur(3)), eur(-1));
    assert_eq!(eur(1).sub_amount(&eur(2)).sub_amount(&eur(3)), eur(-4));
    assert_eq!(
        eur(1).sub_result(&eur(2).sub_amount(&eur(3))),
        eur(2)
    );

    assert_eq!(eur(1).sub_result(&w_e(CurrencyError::Unknown)), eur(1));
    assert_eq!(w_e(CurrencyError::Unknown).sub_amount(&eur(1)), eur(-1));
    assert_eq!(
        w_e(CurrencyError::Unknown).sub_result(&w_e(CurrencyError::Unknown)),
        w_e(CurrencyError::Unknown)
    );
    assert_eq!(
        w_e(CurrencyError::Unknown).sub_result(&w_e(mismatch_usd_eur())),
        w_e(mismatch_usd_eur())
    );
    assert_eq!(
        w_e(mismatch_usd_eur()).sub_result(&w_e(CurrencyError::Unknown)),
        w_e(mismatch_usd_eur())
    );
    assert_eq!(
        w_e(mismatch_usd_eur()).sub_result(&w_e(mismatch_eur_usd())),
        w_e(mismatch_usd_eur())
    );
    assert_eq!(
        w_e(mismatch_eur_usd()).sub_result(&w_e(mismatch_usd_eur())),
        w_e(mismatch_eur_usd())
    );
}

#[test]
fn test_sub_assign() {
    let mut accum = w_a(eur(2));
    accum.sub_assign_amount(&eur(8));
    assert_eq!(accum, eur(-6));
    accum.sub_assign_amount(&usd(1));
    assert_eq!(accum, w_e(mismatch_eur_usd()));
}

#[test]
fn error_latches_through_every_operator() {
    let poisoned = w_e(mismatch_eur_usd());
    assert_eq!(poisoned.add_amount(&eur(1)), w_e(mismatch_eur_usd()));
    assert_eq!(poisoned.sub_amount(&eur(1)), w_e(mismatch_eur_usd()));
    assert_eq!(poisoned.mul_dec(&dec(2, 0)), w_e(mismatch_eur_usd()));
    assert_eq!(poisoned.div_dec(&dec(2, 0)), w_e(mismatch_eur_usd()));
    assert_eq!(poisoned.div_dec(&dec(0, 0)), w_e(mismatch_eur_usd()));
    assert_eq!(poisoned.neg(), w_e(mismatch_eur_usd()));
    assert_eq!(poisoned.abs(), w_e(mismatch_eur_usd()));
}
