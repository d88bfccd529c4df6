//! Equality across kinds: an `Amount` equals an `AmountResult` exactly
//! when the outcome is a success wrapping an equal amount, and a
//! `CurrencyError` equals an `AmountResult` exactly when the outcome is a
//! failure wrapping an equal error; both directions are symmetric.

use crate::amount::Amount;
use crate::amount::amount_eq_spec;
use crate::error::CurrencyError;
use crate::result::AmountResult;
use vstd::prelude::*;

verus! {

impl PartialEq<AmountResult> for Amount {
    /// True exactly when `other` wraps an amount equal to `self`.
    fn eq(&self, other: &AmountResult) -> (r: bool) {
        match &other.0 {
            Ok(b) => *self == *b,
            Err(_) => false,
        }
    }
}

impl vstd::std_specs::cmp::PartialEqSpecImpl<AmountResult> for Amount {
    open spec fn obeys_eq_spec() -> bool {
        true
    }

    open spec fn eq_spec(&self, other: &AmountResult) -> bool {
        other.0 matches Ok(b) && amount_eq_spec(*self, b)
    }
}

impl PartialEq<Amount> for AmountResult {
    /// True exactly when `self` wraps an amount equal to `other`.
    fn eq(&self, other: &Amount) -> (r: bool) {
        match &self.0 {
            Ok(a) => *a == *other,
            Err(_) => false,
        }
    }
}

impl vstd::std_specs::cmp::PartialEqSpecImpl<Amount> for AmountResult {
    open spec fn obeys_eq_spec() -> bool {
        true
    }

    open spec fn eq_spec(&self, other: &Amount) -> bool {
        self.0 matches Ok(a) && amount_eq_spec(a, *other)
    }
}

impl PartialEq<AmountResult> for CurrencyError {
    /// True exactly when `other` wraps an error equal to `self`.
    fn eq(&self, other: &AmountResult) -> (r: bool) {
        match &other.0 {
            Ok(_) => false,
            Err(e) => *self == *e,
        }
    }
}

impl vstd::std_specs::cmp::PartialEqSpecImpl<AmountResult> for CurrencyError {
    open spec fn obeys_eq_spec() -> bool {
        true
    }

    open spec fn eq_spec(&self, other: &AmountResult) -> bool {
        other.0 == Err::<Amount, CurrencyError>(*self)
    }
}

impl PartialEq<CurrencyError> for AmountResult {
    /// True exactly when `self` wraps an error equal to `other`.
    fn eq(&self, other: &CurrencyError) -> (r: bool) {
        match &self.0 {
            Ok(_) => false,
            Err(e) => *e == *other,
        }
    }
}

impl vstd::std_specs::cmp::PartialEqSpecImpl<CurrencyError> for AmountResult {
    open spec fn obeys_eq_spec() -> bool {
        true
    }

    open spec fn eq_spec(&self, other: &CurrencyError) -> bool {
        self.0 == Err::<Amount, CurrencyError>(*other)
    }
}

} // verus!
