//! Subtraction over amounts and outcomes.

use crate::amount::Amount;
use crate::decimal::dec_sub;
use crate::decimal::lemma_diff_canonical;
use crate::decimal::sub_fits;
use crate::error::CurrencyError;
use crate::result::AmountResult;
use crate::result::outcome_sub;
use crate::result::outcome_represents;
use crate::result::sub_compat;
use vstd::prelude::*;

verus! {

impl Amount {
    /// Subtracts two amounts: their difference when the currencies agree,
    /// a `Mismatch` carrying the operands' currencies in operand order
    /// otherwise.
    pub fn sub_amount(&self, rhs: &Amount) -> (r: AmountResult)
        requires
            self.well_formed(),
            rhs.well_formed(),
            self.currency == rhs.currency ==> sub_fits(self.value, rhs.value),
        ensures
            outcome_represents(r.0, outcome_sub(Ok(*self), Ok(*rhs))),
    {
        if self.currency == rhs.currency {
            let v = dec_sub(&self.value, &rhs.value);
            proof {
                lemma_diff_canonical(v, self.value, rhs.value);
            }
            AmountResult(Ok(Amount { value: v, currency: self.currency }))
        } else {
            AmountResult(Err(CurrencyError::Mismatch(self.currency, rhs.currency)))
        }
    }

    /// Subtracts an outcome from an amount: `Unknown` on the right hands
    /// back the left operand unchanged, any other error short-circuits.
    pub fn sub_result(&self, rhs: &AmountResult) -> (r: AmountResult)
        requires
            self.well_formed(),
            rhs.well_formed(),
            sub_compat(Ok(*self), rhs.0),
        ensures
            outcome_represents(r.0, outcome_sub(Ok(*self), rhs.0)),
            rhs.0 == Err::<Amount, CurrencyError>(CurrencyError::Unknown) ==> r.0 == Ok::<
                Amount,
                CurrencyError,
            >(*self),
    {
        match &rhs.0 {
            Ok(b) => self.sub_amount(b),
            Err(CurrencyError::Unknown) => AmountResult(Ok(*self)),
            Err(e) => AmountResult(Err(*e)),
        }
    }
}

impl AmountResult {
    /// Subtracts an amount from an outcome: subtracting from `Unknown`
    /// negates the right operand; any other error is kept unchanged.
    pub fn sub_amount(&self, rhs: &Amount) -> (r: AmountResult)
        requires
            self.well_formed(),
            rhs.well_formed(),
            sub_compat(self.0, Ok(*rhs)),
        ensures
            outcome_represents(r.0, outcome_sub(self.0, Ok(*rhs))),
            self.0 == Err::<Amount, CurrencyError>(CurrencyError::Unknown) ==> r.0
                == crate::result::outcome_neg(Ok(*rhs)),
    {
        match &self.0 {
            Ok(a) => a.sub_amount(rhs),
            Err(CurrencyError::Unknown) => AmountResult(Ok(rhs.neg())),
            Err(e) => AmountResult(Err(*e)),
        }
    }

    /// Subtracts two outcomes, per the combination table. `Unknown` on
    /// the right hands the left operand back unchanged; `Unknown` on the
    /// left negates the right operand.
    pub fn sub_result(&self, rhs: &AmountResult) -> (r: AmountResult)
        requires
            self.well_formed(),
            rhs.well_formed(),
            sub_compat(self.0, rhs.0),
        ensures
            outcome_represents(r.0, outcome_sub(self.0, rhs.0)),
            self.0 == Err::<Amount, CurrencyError>(CurrencyError::Unknown) ==> r.0
                == crate::result::outcome_neg(rhs.0),
            (self.0 matches Ok(_) && rhs.0 == Err::<Amount, CurrencyError>(
                CurrencyError::Unknown,
            )) ==> r.0 == self.0,
    {
        match &self.0 {
            Ok(a) => a.sub_result(rhs),
            Err(CurrencyError::Unknown) => rhs.neg(),
            Err(e) => AmountResult(Err(*e)),
        }
    }

    /// In-place subtraction of an amount, following the same table.
    pub fn sub_assign_amount(&mut self, rhs: &Amount)
        requires
            old(self).well_formed(),
            rhs.well_formed(),
            sub_compat(old(self).0, Ok(*rhs)),
        ensures
            outcome_represents(final(self).0, outcome_sub(old(self).0, Ok(*rhs))),
            old(self).0 == Err::<Amount, CurrencyError>(CurrencyError::Unknown)
                ==> final(self).0 == crate::result::outcome_neg(Ok(*rhs)),
    {
        let cur = *self;
        *self = cur.sub_amount(rhs);
    }

    /// In-place subtraction of an outcome, following the same table.
    pub fn sub_assign_result(&mut self, rhs: &AmountResult)
        requires
            old(self).well_formed(),
            rhs.well_formed(),
            sub_compat(old(self).0, rhs.0),
        ensures
            outcome_represents(final(self).0, outcome_sub(old(self).0, rhs.0)),
            old(self).0 == Err::<Amount, CurrencyError>(CurrencyError::Unknown)
                ==> final(self).0 == crate::result::outcome_neg(rhs.0),
            (old(self).0 matches Ok(_) && rhs.0 == Err::<Amount, CurrencyError>(
                CurrencyError::Unknown,
            )) ==> final(self).0 == old(self).0,
    {
        let cur = *self;
        *self = cur.sub_result(rhs);
    }
}

} // verus!
