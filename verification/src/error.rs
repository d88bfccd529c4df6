//! The closed set of failures that monetary arithmetic can produce.

use crate::currency::Currency;
use crate::currency::currency_code;
use vstd::prelude::*;

verus! {

/// A currency error arising from arithmetic on amounts of money.
#[derive(Clone, Copy, Debug, PartialEq, Eq, Structural, Hash)]
pub enum CurrencyError {
    /// A binary operation received two amounts of different currencies.
    /// The payload keeps the operands' currencies in operand order: the
    /// left operand's currency first.
    Mismatch(Currency, Currency),
    /// An amount was divided by a scalar equal to zero.
    DivideByZero,
    /// No amount is known yet: the reduction identity, produced for
    /// example by summing an empty sequence. Unlike the other two kinds it
    /// is transparent to combination with a real amount.
    Unknown,
}

/// The textual rendering of an error.
pub open spec fn spec_message(e: CurrencyError) -> Seq<char> {
    match e {
        CurrencyError::Mismatch(c1, c2) => "mismatch currency '"@ + currency_code(c1.numeric)
            + "' and '"@ + currency_code(c2.numeric) + "'"@,
        CurrencyError::DivideByZero => "divide by zero"@,
        CurrencyError::Unknown => "unknown currency"@,
    }
}

impl CurrencyError {
    /// Renders the error as text, such as
    /// `mismatch currency 'EUR' and 'USD'`.
    pub fn message(&self) -> (r: String)
        ensures
            r@ == spec_message(*self),
    {
        match self {
            CurrencyError::Mismatch(c1, c2) => {
                let mut s = String::from_str("mismatch currency '");
                s.append(c1.code().as_str());
                s.append("' and '");
                s.append(c2.code().as_str());
                s.append("'");
                proof {
                    assert(s@ =~= spec_message(*self));
                }
                s
            },
            CurrencyError::DivideByZero => String::from_str("divide by zero"),
            CurrencyError::Unknown => String::from_str("unknown currency"),
        }
    }
}

} // verus!
