//! Addition over amounts and outcomes.

use crate::amount::Amount;
use crate::decimal::add_fits;
use crate::decimal::dec_add;
use crate::decimal::lemma_sum_canonical;
use crate::error::CurrencyError;
use crate::result::AmountResult;
use crate::result::add_compat;
use crate::result::outcome_add;
use crate::result::outcome_represents;
use vstd::prelude::*;

verus! {

impl Amount {
    /// Adds two amounts: their sum when the currencies agree, a
    /// `Mismatch` carrying the operands' currencies in operand order
    /// otherwise.
    pub fn add_amount(&self, rhs: &Amount) -> (r: AmountResult)
        requires
            self.well_formed(),
            rhs.well_formed(),
            self.currency == rhs.currency ==> add_fits(self.value, rhs.value),
        ensures
            outcome_represents(r.0, outcome_add(Ok(*self), Ok(*rhs))),
    {
        if self.currency == rhs.currency {
            let v = dec_add(&self.value, &rhs.value);
            proof {
                lemma_sum_canonical(v, self.value, rhs.value);
            }
            AmountResult(Ok(Amount { value: v, currency: self.currency }))
        } else {
            AmountResult(Err(CurrencyError::Mismatch(self.currency, rhs.currency)))
        }
    }

    /// Adds an outcome to an amount: `Unknown` on the right hands back
    /// the left operand unchanged, any other error short-circuits.
    pub fn add_result(&self, rhs: &AmountResult) -> (r: AmountResult)
        requires
            self.well_formed(),
            rhs.well_formed(),
            add_compat(Ok(*self), rhs.0),
        ensures
            outcome_represents(r.0, outcome_add(Ok(*self), rhs.0)),
            rhs.0 == Err::<Amount, CurrencyError>(CurrencyError::Unknown) ==> r.0 == Ok::<
                Amount,
                CurrencyError,
            >(*self),
    {
        match &rhs.0 {
            Ok(b) => self.add_amount(b),
            Err(CurrencyError::Unknown) => AmountResult(Ok(*self)),
            Err(e) => AmountResult(Err(*e)),
        }
    }
}

impl AmountResult {
    /// Adds an amount to an outcome: `Unknown` on the left is replaced by
    /// the right operand unchanged, any other error is kept unchanged.
    pub fn add_amount(&self, rhs: &Amount) -> (r: AmountResult)
        requires
            self.well_formed(),
            rhs.well_formed(),
            add_compat(self.0, Ok(*rhs)),
        ensures
            outcome_represents(r.0, outcome_add(self.0, Ok(*rhs))),
            self.0 == Err::<Amount, CurrencyError>(CurrencyError::Unknown) ==> r.0 == Ok::<
                Amount,
                CurrencyError,
            >(*rhs),
    {
        match &self.0 {
            Ok(a) => a.add_amount(rhs),
            Err(CurrencyError::Unknown) => AmountResult(Ok(*rhs)),
            Err(e) => AmountResult(Err(*e)),
        }
    }

    /// Adds two outcomes, per the combination table. An `Unknown`
    /// operand hands the other side back unchanged.
    pub fn add_result(&self, rhs: &AmountResult) -> (r: AmountResult)
        requires
            self.well_formed(),
            rhs.well_formed(),
            add_compat(self.0, rhs.0),
        ensures
            outcome_represents(r.0, outcome_add(self.0, rhs.0)),
            self.0 == Err::<Amount, CurrencyError>(CurrencyError::Unknown) ==> r == *rhs,
            (self.0 matches Ok(_) && rhs.0 == Err::<Amount, CurrencyError>(
                CurrencyError::Unknown,
            )) ==> r.0 == self.0,
    {
        match &self.0 {
            Ok(a) => a.add_result(rhs),
            Err(CurrencyError::Unknown) => *rhs,
            Err(e) => AmountResult(Err(*e)),
        }
    }

    /// In-place addition of an amount, following the same table.
    pub fn add_assign_amount(&mut self, rhs: &Amount)
        requires
            old(self).well_formed(),
            rhs.well_formed(),
            add_compat(old(self).0, Ok(*rhs)),
        ensures
            outcome_represents(final(self).0, outcome_add(old(self).0, Ok(*rhs))),
            old(self).0 == Err::<Amount, CurrencyError>(CurrencyError::Unknown)
                ==> final(self).0 == Ok::<Amount, CurrencyError>(*rhs),
    {
        let cur = *self;
        *self = cur.add_amount(rhs);
    }

    /// In-place addition of an outcome, following the same table.
    pub fn add_assign_result(&mut self, rhs: &AmountResult)
        requires
            old(self).well_formed(),
            rhs.well_formed(),
            add_compat(old(self).0, rhs.0),
        ensures
            outcome_represents(final(self).0, outcome_add(old(self).0, rhs.0)),
            old(self).0 == Err::<Amount, CurrencyError>(CurrencyError::Unknown) ==> *final(self)
                == *rhs,
            (old(self).0 matches Ok(_) && rhs.0 == Err::<Amount, CurrencyError>(
                CurrencyError::Unknown,
            )) ==> final(self).0 == old(self).0,
    {
        let cur = *self;
        *self = cur.add_result(rhs);
    }
}

} // verus!
