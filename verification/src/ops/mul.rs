//! Scaling outcomes by a scalar.

use crate::decimal::Decimal;
use crate::decimal::lemma_prod_canonical;
use crate::result::AmountResult;
use crate::result::mul_compat;
use crate::result::outcome_mul;
use crate::result::outcome_represents;
use vstd::prelude::*;

verus! {

impl AmountResult {
    /// Multiplies the wrapped amount by a scalar; every error passes
    /// through unchanged.
    pub fn mul_dec(&self, rhs: &Decimal) -> (r: AmountResult)
        requires
            self.well_formed(),
            rhs.well_formed(),
            mul_compat(self.0, *rhs),
        ensures
            outcome_represents(r.0, outcome_mul(self.0, *rhs)),
    {
        match &self.0 {
            Ok(a) => {
                let m = a.mul_dec(rhs);
                proof {
                    lemma_prod_canonical(m.value, a.value, *rhs);
                }
                AmountResult(Ok(m))
            },
            Err(e) => AmountResult(Err(*e)),
        }
    }
}

} // verus!
