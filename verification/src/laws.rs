//! The algebraic laws of the library, stated and proved over the same
//! spec functions that the operators' contracts use.

use crate::amount::Amount;
use crate::amount::amount_eq_spec;
use crate::decimal::Decimal;
use crate::decimal::add_fits;
use crate::decimal::lemma_add_sub_cancel_dec;
use crate::decimal::lemma_diff_canonical_converse;
use crate::decimal::lemma_sum_canonical_converse;
use crate::decimal::sub_fits;
use crate::error::CurrencyError;
use crate::result::outcome_add;
use crate::result::outcome_div;
use crate::result::outcome_mul;
use crate::result::outcome_neg;
use crate::result::outcome_represents;
use crate::result::outcome_sub;
use crate::result::spec_sum;
use vstd::prelude::*;

verus! {

/// Adding an amount and subtracting it again returns the original
/// amount: for same-currency `a` and `b`, whenever `t` is what `a + b`
/// returned and `u` is what `t - b` returned, `u == a` — within exact
/// decimal arithmetic, which the two `fits` premises delimit.
pub proof fn lemma_add_sub_cancel(a: Amount, b: Amount, t: Amount, u: Amount)
    requires
        a.well_formed(),
        b.well_formed(),
        a.currency == b.currency,
        add_fits(a.value, b.value),
        sub_fits(t.value, b.value),
        outcome_represents(Ok(t), outcome_add(Ok(a), Ok(b))),
        outcome_represents(Ok(u), outcome_sub(Ok(t), Ok(b))),
    ensures
        amount_eq_spec(u, a),
{
    lemma_sum_canonical_converse(t.value, a.value, b.value);
    lemma_diff_canonical_converse(u.value, t.value, b.value);
    lemma_add_sub_cancel_dec(a.value, b.value, t.value, u.value);
}

/// Combining amounts of differing currencies yields `Mismatch`, with the
/// operands' currencies in operand order, for `+` and `-` alike.
pub proof fn lemma_mismatch_order(a: Amount, b: Amount)
    requires
        a.currency != b.currency,
    ensures
        outcome_add(Ok(a), Ok(b)) == Err::<Amount, CurrencyError>(
            CurrencyError::Mismatch(a.currency, b.currency),
        ),
        outcome_sub(Ok(a), Ok(b)) == Err::<Amount, CurrencyError>(
            CurrencyError::Mismatch(a.currency, b.currency),
        ),
{
}

/// `Unknown` is a two-sided identity for `+` on success values; on the
/// right of `-` it is transparent, while on the left of `-` it negates
/// the right operand.
pub proof fn lemma_unknown_identity(a: Amount)
    ensures
        outcome_add(Ok(a), Err(CurrencyError::Unknown)) == Ok::<Amount, CurrencyError>(a),
        outcome_add(Err(CurrencyError::Unknown), Ok(a)) == Ok::<Amount, CurrencyError>(a),
        outcome_sub(Ok(a), Err(CurrencyError::Unknown)) == Ok::<Amount, CurrencyError>(a),
        outcome_sub(Err(CurrencyError::Unknown), Ok(a)) == outcome_neg(Ok(a)),
{
}

/// Once a non-`Unknown` error has entered a chain, no further operand
/// changes it: it is absorbing for `+`, `-`, `×` and `÷` alike.
pub proof fn lemma_error_absorbs(
    e: CurrencyError,
    x: Result<Amount, CurrencyError>,
    k: Decimal,
)
    requires
        e != CurrencyError::Unknown,
    ensures
        outcome_add(Err(e), x) == Err::<Amount, CurrencyError>(e),
        outcome_sub(Err(e), x) == Err::<Amount, CurrencyError>(e),
        outcome_mul(Err(e), k) == Err::<Amount, CurrencyError>(e),
        outcome_div(Err(e), k) == Err::<Amount, CurrencyError>(e),
{
}

/// Dividing by zero yields `DivideByZero`, over a wrapped amount and
/// over `Unknown` alike — only a pre-existing non-`Unknown` error
/// short-circuits the zero check — and `DivideByZero` itself passes
/// unchanged through a further division by anything.
pub proof fn lemma_divide_by_zero(a: Amount, k: Decimal)
    ensures
        k.mantissa == 0 ==> outcome_div(Ok(a), k) == Err::<Amount, CurrencyError>(
            CurrencyError::DivideByZero,
        ),
        k.mantissa == 0 ==> outcome_div(Err(CurrencyError::Unknown), k) == Err::<
            Amount,
            CurrencyError,
        >(CurrencyError::DivideByZero),
        outcome_div(Err(CurrencyError::DivideByZero), k) == Err::<Amount, CurrencyError>(
            CurrencyError::DivideByZero,
        ),
{
}

/// Summing the empty sequence yields `Unknown`.
pub proof fn lemma_sum_empty()
    ensures
        spec_sum(Seq::<Result<Amount, CurrencyError>>::empty()) == Err::<Amount, CurrencyError>(
            CurrencyError::Unknown,
        ),
{
}

/// Summing a single outcome yields that outcome unchanged.
pub proof fn lemma_sum_singleton(x: Result<Amount, CurrencyError>)
    ensures
        spec_sum(seq![x]) == x,
{
    let s = seq![x];
    assert(s.drop_last() =~= Seq::<Result<Amount, CurrencyError>>::empty());
    assert(spec_sum(s.drop_last()) == Err::<Amount, CurrencyError>(CurrencyError::Unknown));
    assert(s.last() == x);
    assert(spec_sum(s) == outcome_add(Err(CurrencyError::Unknown), x));
}

/// An `Unknown` element in the middle of a reduction is transparent:
/// summing `[a, Unknown, b]` is exactly adding `a` and `b`.
pub proof fn lemma_sum_absorbs_unknown(a: Amount, b: Amount)
    ensures
        spec_sum(
            seq![
                Ok::<Amount, CurrencyError>(a),
                Err::<Amount, CurrencyError>(CurrencyError::Unknown),
                Ok::<Amount, CurrencyError>(b),
            ],
        ) == outcome_add(Ok(a), Ok(b)),
{
    let s = seq![
        Ok::<Amount, CurrencyError>(a),
        Err::<Amount, CurrencyError>(CurrencyError::Unknown),
        Ok::<Amount, CurrencyError>(b),
    ];
    let s2 = seq![
        Ok::<Amount, CurrencyError>(a),
        Err::<Amount, CurrencyError>(CurrencyError::Unknown),
    ];
    assert(s.drop_last() =~= s2);
    assert(s2.drop_last() =~= seq![Ok::<Amount, CurrencyError>(a)]);
    lemma_sum_singleton(Ok(a));
    assert(s2.last() == Err::<Amount, CurrencyError>(CurrencyError::Unknown));
    assert(spec_sum(s2) == outcome_add(
        Ok::<Amount, CurrencyError>(a),
        Err::<Amount, CurrencyError>(CurrencyError::Unknown),
    ));
    assert(spec_sum(s2) == Ok::<Amount, CurrencyError>(a));
    assert(s.last() == Ok::<Amount, CurrencyError>(b));
    assert(spec_sum(s) == outcome_add(Ok::<Amount, CurrencyError>(a), Ok::<Amount, CurrencyError>(b)));
}

} // verus!
