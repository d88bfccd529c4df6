use oxydized_money::Amount;
use oxydized_money::AmountResult;
use oxydized_money::Currency;
use oxydized_money::CurrencyError;
use oxydized_money::Decimal;

fn dec(mantissa: i128, scale: u32) -> Decimal {
    Decimal::new(mantissa, scale)
}

fn eur(n: i128) -> Amount {
    Amount::new(dec(n, 0), Currency::eur())
}

fn eur_frac(mantissa: i128, scale: u32) -> Amount {
    Amount::new(dec(mantissa, scale), Currency::eur())
}

fn usd(n: i128) -> Amount {
    Amount::new(dec(n, 0), Currency::usd())
}

fn w_a(a: Amount) -> AmountResult {
    AmountResult::from(a)
}

fn w_e(e: CurrencyError) -> AmountResult {
    AmountResult::from(e)
}

fn mismatch_eur_usd() -> CurrencyError {
    CurrencyError::Mismatch(Currency::eur(), Currency::usd())
}

fn mismatch_usd_eur() -> CurrencyError {
    CurrencyError::Mismatch(Currency::usd(), Currency::eur())
}

#[test]
fn amount_add_amount() {
    assert_eq!(eur(3).add_amount(&eur(5)), eur(8));
    assert_eq!(eur(3).add_amount(&usd(5)), mismatch_eur_usd());
}

#[test]
fn amount_add_amount_result() {
    assert_eq!(eur(3).add_result(&w_a(eur(1))), eur(4));
    assert_eq!(eur(3).add_result(&w_e(CurrencyError::Unknown)), eur(3));
    assert_eq!(
        eur(3).add_result(&w_e(CurrencyError::DivideByZero)),
        w_e(CurrencyError::DivideByZero)
    );
    assert_eq!(eur(3).add_result(&w_e(mismatch_eur_usd())), w_e(mismatch_eur_usd()));
}

#[test]
fn amount_result_add_amount() {
    assert_eq!(w_a(eur(1)).add_amount(&eur(3)), eur(4));
    assert_eq!(w_e(CurrencyError::Unknown).add_amount(&eur(1)), eur(1));
    assert_eq!(
        w_e(CurrencyError::DivideByZero).add_amount(&eur(1)),
        w_e(CurrencyError::DivideByZero)
    );
    assert_eq!(w_e(mismatch_eur_usd()).add_amount(&eur(1)), w_e(mismatch_eur_usd()));
}

#[test]
fn amount_result_add_amount_result() {
    assert_eq!(w_a(eur(3)).add_result(&w_a(eur(1))), eur(4));
    assert_eq!(w_a(eur(3)).add_result(&w_e(CurrencyError::Unknown)), eur(3));
    assert_eq!(
        w_a(eur(3)).add_result(&w_e(CurrencyError::DivideByZero)),
        w_e(CurrencyError::DivideByZero)
    );
    assert_eq!(w_a(eur(3)).add_result(&w_e(mismatch_eur_usd())), w_e(mismatch_eur_usd()));
}

#[test]
fn amount_result_add_assign_amount() {
    let mut accum = w_a(eur(2));
    accum.add_assign_amount(&eur(12));
    assert_eq!(accum, eur(14));
    accum.add_assign_amount(&usd(1));
    assert_eq!(accum, w_e(mismatch_eur_usd()));
}

#[test]
fn amount_result_add_assign_amount_result() {
    let mut accum = w_a(eur(2));
    accum.add_assign_result(&w_a(eur(12)));
    assert_eq!(accum, eur(14));
    accum.add_assign_result(&w_a(usd(1)));
    assert_eq!(accum, w_e(mismatch_eur_usd()));
}

#[test]
fn amount_div_decimal() {
    assert_eq!(eur_frac(63, 1).div_dec(&dec(3, 0)), eur_frac(21, 1));
    assert_eq!(eur_frac(-63, 1).div_dec(&dec(3, 0)), eur_frac(-21, 1));
    assert_eq!(eur_frac(63, 1).div_dec(&dec(-3, 0)), eur_frac(-21, 1));
    assert_eq!(eur_frac(63, 1).div_dec(&dec(0, 0)), w_e(CurrencyError::DivideByZero));
}

#[test]
fn amount_result_div_decimal() {
    assert_eq!(w_a(eur(10)).div_dec(&dec(5, 0)), eur(2));
    assert_eq!(w_a(eur(10)).div_dec(&dec(0, 0)), w_e(CurrencyError::DivideByZero));
    assert_eq!(w_e(mismatch_usd_eur()).div_dec(&dec(3, 0)), w_e(mismatch_usd_eur()));
    assert_eq!(
        w_e(CurrencyError::Unknown).div_dec(&dec(3, 0)),
        w_e(CurrencyError::Unknown)
    );
    assert_eq!(
        w_e(CurrencyError::DivideByZero).div_dec(&dec(3, 0)),
        w_e(CurrencyError::DivideByZero)
    );
}

#[test]
fn amount_eq_amount_resut() {
    assert!(eur(10) == w_a(eur(10)));
    assert!(eur(10) != w_a(eur(12)));
    assert!(eur(10) != w_a(usd(10)));
    assert!(eur(10) != w_a(usd(12)));
    assert!(eur(10) != w_e(CurrencyError::Unknown));
    assert!(eur(10) != w_e(CurrencyError::DivideByZero));
    assert!(eur(10) != w_e(mismatch_eur_usd()));
}

#[test]
fn amount_result_eq_amount() {
    assert!(w_a(eur(10)) == eur(10));
    assert!(w_a(eur(10)) != eur(12));
    assert!(w_a(eur(10)) != usd(10));
    assert!(w_a(eur(10)) != usd(12));
    assert!(w_e(CurrencyError::Unknown) != eur(10));
    assert!(w_e(CurrencyError::DivideByZero) != eur(10));
    assert!(w_e(mismatch_eur_usd()) != eur(10));
}

#[test]
fn amount_result_eq_error() {
    assert!(w_a(eur(10)) != CurrencyError::Unknown);
    assert!(w_a(eur(10)) != CurrencyError::DivideByZero);
    assert!(w_a(eur(10)) != mismatch_eur_usd());
    assert!(w_e(CurrencyError::Unknown) == CurrencyError::Unknown);
    assert!(w_e(CurrencyError::Unknown) != CurrencyError::DivideByZero);
    assert!(w_e(CurrencyError::Unknown) != mismatch_eur_usd());
    assert!(w_e(CurrencyError::DivideByZero) != CurrencyError::Unknown);
    assert!(w_e(CurrencyError::DivideByZero) == CurrencyError::DivideByZero);
    assert!(w_e(CurrencyError::DivideByZero) != mismatch_eur_usd());
    assert!(w_e(mismatch_eur_usd()) != CurrencyError::Unknown);
    assert!(w_e(mismatch_eur_usd()) != CurrencyError::DivideByZero);
    assert!(w_e(mismatch_eur_usd()) == mismatch_eur_usd());
    assert!(w_e(mismatch_eur_usd()) != mismatch_usd_eur());
}

#[test]
fn error_eq_amount_result() {
    assert!(CurrencyError::Unknown != w_a(eur(10)));
    assert!(CurrencyError::DivideByZero != w_a(eur(10)));
    assert!(mismatch_eur_usd() != w_a(eur(10)));
    assert!(CurrencyError::Unknown == w_e(CurrencyError::Unknown));
    assert!(CurrencyError::DivideByZero != w_e(CurrencyError::Unknown));
    assert!(mismatch_eur_usd() != w_e(CurrencyError::Unknown));
    assert!(CurrencyError::Unknown != w_e(CurrencyError::DivideByZero));
    assert!(CurrencyError::DivideByZero == w_e(CurrencyError::DivideByZero));
    assert!(mismatch_eur_usd() != w_e(CurrencyError::DivideByZero));
    assert!(CurrencyError::Unknown != w_e(mismatch_eur_usd()));
    assert!(CurrencyError::DivideByZero != w_e(mismatch_eur_usd()));
    assert!(mismatch_eur_usd() == w_e(mismatch_eur_usd()));
    assert!(mismatch_usd_eur() != w_e(mismatch_eur_usd()));
}

#[test]
fn amount_mul_decimal() {
    assert_eq!(eur(2).mul_dec(&dec(3, 0)), eur(6));
    assert_eq!(eur(-2).mul_dec(&dec(3, 0)), eur(-6));
}

#[test]
fn amount_result_mul_decimal() {
    assert_eq!(w_a(eur(2)).mul_dec(&dec(3, 0)), eur(6));
    assert_eq!(w_e(mismatch_usd_eur()).mul_dec(&dec(3, 0)), w_e(mismatch_usd_eur()));
    assert_eq!(
        w_e(CurrencyError::Unknown).mul_dec(&dec(3, 0)),
        w_e(CurrencyError::Unknown)
    );
    assert_eq!(
        w_e(CurrencyError::DivideByZero).mul_dec(&dec(3, 0)),
        w_e(CurrencyError::DivideByZero)
    );
}

#[test]
fn neg_amount() {
    assert_eq!(eur(2).neg(), eur(-2));
    assert_eq!(eur(2).neg().neg(), eur(2));
    assert_eq!(usd(-2).neg(), usd(2));
}

#[test]
fn neg_amount_result() {
    assert_eq!(w_a(eur(2)).neg(), eur(2).neg());
    assert_eq!(w_e(mismatch_eur_usd()).neg(), w_e(mismatch_eur_usd()));
    assert_eq!(w_e(CurrencyError::Unknown).neg(), w_e(CurrencyError::Unknown));
    assert_eq!(
        w_e(CurrencyError::DivideByZero).neg(),
        w_e(CurrencyError::DivideByZero)
    );
}

#[test]
fn amount_sub_amount() {
    assert_eq!(eur(3).sub_amount(&eur(5)), eur(-2));
    assert_eq!(eur(3).sub_amount(&usd(5)), mismatch_eur_usd());
}

#[test]
fn amount_sub_amount_result() {
    assert_eq!(eur(3).sub_result(&w_a(eur(1))), eur(2));
    assert_eq!(eur(3).sub_result(&w_e(CurrencyError::Unknown)), eur(3));
    assert_eq!(
        eur(3).sub_result(&w_e(CurrencyError::DivideByZero)),
        w_e(CurrencyError::DivideByZero)
    );
    assert_eq!(eur(3).sub_result(&w_e(mismatch_eur_usd())), w_e(mismatch_eur_usd()));
}

#[test]
fn amount_result_sub_amount() {
    assert_eq!(w_a(eur(1)).sub_amount(&eur(3)), eur(-2));
    assert_eq!(w_e(CurrencyError::Unknown).sub_amount(&eur(1)), eur(-1));
    assert_eq!(
        w_e(CurrencyError::DivideByZero).sub_amount(&eur(1)),
        w_e(CurrencyError::DivideByZero)
    );
    assert_eq!(w_e(mismatch_eur_usd()).sub_amount(&eur(1)), w_e(mismatch_eur_usd()));
}

#[test]
fn amount_result_sub_amount_result() {
    assert_eq!(w_a(eur(3)).sub_result(&w_a(eur(1))), eur(2));
    assert_eq!(w_a(eur(3)).sub_result(&w_e(CurrencyError::Unknown)), eur(3));
    assert_eq!(
        w_a(eur(3)).sub_result(&w_e(CurrencyError::DivideByZero)),
        w_e(CurrencyError::DivideByZero)
    );
    assert_eq!(w_a(eur(3)).sub_result(&w_e(mismatch_eur_usd())), w_e(mismatch_eur_usd()));
}

#[test]
fn amount_result_sub_assign_amount() {
    let mut accum = w_a(eur(2));
    accum.sub_assign_amount(&eur(12));
    assert_eq!(accum, eur(-10));
    accum.sub_assign_amount(&usd(1));
    assert_eq!(accum, w_e(mismatch_eur_usd()));
}

#[test]
fn amount_result_sub_assign_amount_result() {
    let mut accum = w_a(eur(2));
    accum.sub_assign_result(&w_a(eur(12)));
    assert_eq!(accum, eur(-10));
    accum.sub_assign_result(&w_a(usd(1)));
    assert_eq!(accum, w_e(mismatch_eur_usd()));
}

#[test]
fn add_then_sub_returns_original() {
    let a = eur_frac(12, 1);
    let b = eur(3);
    let t = a.add_amount(&b).into_inner().unwrap();
    let u = t.sub_amount(&b).into_inner().unwrap();
    assert_eq!(u, a);
}

#[test]
fn mismatch_keeps_operand_order() {
    assert_eq!(eur(3).sub_amount(&usd(5)), mismatch_eur_usd());
    assert_eq!(usd(3).sub_amount(&eur(5)), mismatch_usd_eur());
    assert_eq!(eur(10).sub_amount(&eur(5)), eur(5));
}

#[test]
fn add_zero_keeps_value() {
    assert_eq!(eur_frac(12, 1).add_amount(&eur(0)), eur_frac(12, 1));
    assert_eq!(eur(0).add_amount(&eur_frac(12, 1)), eur_frac(12, 1));
    assert_eq!(eur(0).sub_amount(&eur_frac(12, 1)), eur_frac(-12, 1));
    assert_eq!(eur_frac(12, 1).sub_amount(&eur(0)), eur_frac(12, 1));
    assert_eq!(eur(0).mul_dec(&dec(12, 1)), eur(0));
    assert_eq!(eur_frac(12, 1).mul_dec(&dec(0, 0)), eur(0));
}

#[test]
fn add_near_the_mantissa_limit() {
    let big = Amount::new(dec(79228162514264337593543950334, 0), Currency::eur());
    assert_eq!(
        big.add_amount(&eur(1)),
        Amount::new(dec(79228162514264337593543950335, 0), Currency::eur())
    );
    assert_eq!(big.add_amount(&eur(1)).sub_amount(&eur(1)), big);
}

#[test]
fn mixed_scale_arithmetic_is_exact() {
    assert_eq!(eur_frac(105, 1).add_amount(&eur_frac(25, 2)), eur_frac(1075, 2));
    assert_eq!(eur_frac(105, 1).sub_amount(&eur_frac(25, 2)), eur_frac(1025, 2));
    assert_eq!(eur_frac(105, 1).mul_dec(&dec(25, 2)), eur_frac(2625, 3));
}

#[test]
fn unknown_divided_by_zero_is_divide_by_zero() {
    assert_eq!(
        w_e(CurrencyError::Unknown).div_dec(&dec(0, 0)),
        w_e(CurrencyError::DivideByZero)
    );
    assert_eq!(
        w_e(CurrencyError::Unknown).div_dec(&dec(3, 0)),
        w_e(CurrencyError::Unknown)
    );
}
