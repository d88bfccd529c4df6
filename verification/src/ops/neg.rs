//! Negation of outcomes.

use crate::result::AmountResult;
use crate::result::outcome_neg;
use vstd::prelude::*;

verus! {

impl AmountResult {
    /// Negates the wrapped amount; every error, `Unknown` included,
    /// passes through unchanged.
    pub fn neg(&self) -> (r: AmountResult)
        requires
            self.well_formed(),
        ensures
            r.0 == outcome_neg(self.0),
            r.well_formed(),
    {
        match &self.0 {
            Ok(a) => AmountResult(Ok(a.neg())),
            Err(e) => AmountResult(Err(*e)),
        }
    }
}

} // verus!
