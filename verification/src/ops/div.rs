//! Division of amounts and outcomes by a scalar.

use crate::amount::Amount;
use crate::decimal::Decimal;
use crate::decimal::dec_div;
use crate::decimal::div_fits;
use crate::error::CurrencyError;
use crate::result::AmountResult;
use crate::result::div_compat;
use crate::result::outcome_div;
use vstd::prelude::*;

verus! {

impl Amount {
    /// Divides the quantity by a scalar: `DivideByZero` when the scalar
    /// is zero, the quotient otherwise.
    pub fn div_dec(&self, rhs: &Decimal) -> (r: AmountResult)
        requires
            self.well_formed(),
            rhs.well_formed(),
            rhs.mantissa != 0 ==> div_fits(self.value, *rhs),
        ensures
            r.0 == outcome_div(Ok(*self), *rhs),
            r.well_formed(),
    {
        if rhs.is_zero() {
            AmountResult(Err(CurrencyError::DivideByZero))
        } else {
            AmountResult(Ok(Amount { value: dec_div(&self.value, rhs), currency: self.currency }))
        }
    }
}

impl AmountResult {
    /// Divides the wrapped amount by a scalar. A pre-existing
    /// non-`Unknown` error short-circuits before the zero check; a zero
    /// scalar turns a wrapped amount, or `Unknown`, into `DivideByZero`.
    pub fn div_dec(&self, rhs: &Decimal) -> (r: AmountResult)
        requires
            self.well_formed(),
            rhs.well_formed(),
            div_compat(self.0, *rhs),
        ensures
            r.0 == outcome_div(self.0, *rhs),
            r.well_formed(),
    {
        match &self.0 {
            Ok(a) => a.div_dec(rhs),
            Err(CurrencyError::Unknown) => {
                if rhs.is_zero() {
                    AmountResult(Err(CurrencyError::DivideByZero))
                } else {
                    AmountResult(Err(CurrencyError::Unknown))
                }
            },
            Err(e) => AmountResult(Err(*e)),
        }
    }
}

} // verus!
