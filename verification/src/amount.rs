//! `Amount` represents an amount of money in a specific currency: an
//! immutable pair of a decimal quantity and a currency.

use crate::currency::Currency;
use crate::currency::currency_symbol;
use crate::decimal::Decimal;
use crate::decimal::dec_eqv;
use crate::decimal::dec_format;
use crate::decimal::dec_lt;
use crate::decimal::dec_mul;
use crate::decimal::format_result;
use crate::decimal::is_prod;
use crate::decimal::mul_fits;
use vstd::prelude::*;

verus! {

/// An amount of money: a decimal quantity measured in a currency.
///
/// Equality is numeric on the quantity (`1.0` equals `1.00`) and exact on
/// the currency. Ordering is partial: amounts of different currencies are
/// never comparable.
#[derive(Clone, Copy, Debug)]
pub struct Amount {
    pub value: Decimal,
    pub currency: Currency,
}

/// What `==` means on amounts: numerically equal quantities in the same
/// currency.
pub open spec fn amount_eq_spec(a: Amount, b: Amount) -> bool {
    dec_eqv(a.value, b.value) && a.currency == b.currency
}

/// What comparing two amounts yields: an ordering of the quantities when
/// the currencies are identical, nothing otherwise.
pub open spec fn spec_compare(a: Amount, b: Amount) -> Option<core::cmp::Ordering> {
    if a.currency == b.currency {
        if dec_lt(a.value, b.value) {
            Some(core::cmp::Ordering::Less)
        } else if dec_eqv(a.value, b.value) {
            Some(core::cmp::Ordering::Equal)
        } else {
            Some(core::cmp::Ordering::Greater)
        }
    } else {
        None
    }
}

/// The textual rendering of an amount: the currency symbol, a space, and
/// the quantity with the requested number of fractional digits.
pub open spec fn spec_display(a: Amount, precision: nat) -> Seq<char> {
    currency_symbol(a.currency.numeric) + " "@ + format_result(
        a.value.mantissa as int,
        a.value.scale as nat,
        precision,
    )
}

impl Amount {
    /// The quantity is within the representable decimal range.
    pub open spec fn well_formed(self) -> bool {
        self.value.well_formed()
    }

    /// Creates a new amount of `value`, measured in `currency`.
    pub fn new(value: Decimal, currency: Currency) -> (r: Amount)
        ensures
            r == (Amount { value, currency }),
    {
        Amount { value, currency }
    }

    /// Returns the quantity of money.
    pub fn value(&self) -> (r: Decimal)
        ensures
            r == self.value,
    {
        self.value
    }

    /// Returns the currency in which the quantity is measured.
    pub fn currency(&self) -> (r: Currency)
        ensures
            r == self.currency,
    {
        self.currency
    }

    /// True if and only if the quantity is exactly zero, regardless of
    /// the currency.
    pub fn is_zero(&self) -> (r: bool)
        ensures
            r == (self.value.mantissa == 0),
    {
        self.value.is_zero()
    }

    /// True if and only if the quantity is negative.
    pub fn is_sign_negative(&self) -> (r: bool)
        ensures
            r == (self.value.mantissa < 0),
    {
        self.value.is_sign_negative()
    }

    /// Returns the absolute value of `self`, same currency.
    pub fn abs(&self) -> (r: Amount)
        requires
            self.well_formed(),
        ensures
            r.currency == self.currency,
            r.value.scale == self.value.scale,
            r.value.mantissa == vstd::math::abs(self.value.mantissa as int),
            r.well_formed(),
    {
        Amount { value: self.value.abs(), currency: self.currency }
    }

    /// Returns the negated amount, same currency.
    pub fn neg(&self) -> (r: Amount)
        requires
            self.well_formed(),
        ensures
            r.currency == self.currency,
            r.value.mantissa == -self.value.mantissa,
            r.value.scale == self.value.scale,
            r.well_formed(),
    {
        Amount { value: self.value.neg(), currency: self.currency }
    }

    /// Scales the quantity by `rhs`, keeping the currency.
    pub fn mul_dec(&self, rhs: &Decimal) -> (r: Amount)
        requires
            self.well_formed(),
            rhs.well_formed(),
            mul_fits(self.value, *rhs),
        ensures
            r.currency == self.currency,
            is_prod(r.value, self.value, *rhs),
            r.value.scale <= self.value.scale + rhs.scale,
            r.well_formed(),
    {
        Amount { value: dec_mul(&self.value, rhs), currency: self.currency }
    }

    /// Returns `self` converted into `target_currency` using the given
    /// exchange rate: the quantity scaled by the rate, measured in the
    /// target currency. The caller is responsible for the rate; nothing
    /// checks that it is positive or that the currencies differ.
    pub fn converted_to(&self, target_currency: Currency, exchange_rate: Decimal) -> (r: Amount)
        requires
            self.well_formed(),
            exchange_rate.well_formed(),
            mul_fits(self.value, exchange_rate),
        ensures
            r.currency == target_currency,
            is_prod(r.value, self.value, exchange_rate),
            r.value.scale <= self.value.scale + exchange_rate.scale,
            r.well_formed(),
    {
        Amount { value: dec_mul(&self.value, &exchange_rate), currency: target_currency }
    }

    /// Compares two amounts: an ordering when the currencies are
    /// identical, `None` otherwise. Neither `<` nor `==` ever treats
    /// cross-currency amounts as comparable.
    pub fn compare(&self, other: &Amount) -> (r: Option<core::cmp::Ordering>)
        requires
            self.well_formed(),
            other.well_formed(),
        ensures
            r == spec_compare(*self, *other),
    {
        if self.currency == other.currency {
            Some(self.value.cmp_value(&other.value))
        } else {
            None
        }
    }

    /// Renders the amount with the requested number of fractional digits,
    /// as the currency symbol, a space, and the quantity.
    pub fn display_precision(&self, precision: usize) -> (r: String)
        requires
            self.well_formed(),
            crate::decimal::format_fits(self.value, precision as nat),
        ensures
            r@ == spec_display(*self, precision as nat),
    {
        let mut s = self.currency.symbol();
        s.append(" ");
        s.append(dec_format(&self.value, precision).as_str());
        proof {
            assert(s@ =~= spec_display(*self, precision as nat));
        }
        s
    }

    /// Renders the amount at the default precision of two fractional
    /// digits, which every well-formed amount fits.
    pub fn display(&self) -> (r: String)
        requires
            self.well_formed(),
        ensures
            r@ == spec_display(*self, 2),
    {
        proof {
            crate::decimal::lemma_format_fits_small(self.value, 2);
        }
        self.display_precision(2)
    }
}

impl PartialEq for Amount {
    /// Numeric equality of the quantities, exact equality of the
    /// currencies.
    fn eq(&self, other: &Amount) -> (r: bool) {
        self.value.eq_value(&other.value) && self.currency == other.currency
    }
}

impl vstd::std_specs::cmp::PartialEqSpecImpl for Amount {
    open spec fn obeys_eq_spec() -> bool {
        true
    }

    open spec fn eq_spec(&self, other: &Amount) -> bool {
        amount_eq_spec(*self, *other)
    }
}

} // verus!
