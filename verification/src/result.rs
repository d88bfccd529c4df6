//! `AmountResult` represents the result of a computation involving
//! amounts of money: either a valid [`Amount`] or a [`CurrencyError`].
//! Instances can themselves be used in further arithmetic; all errors are
//! coalesced and can be checked once at the very end of a chain.

use crate::amount::Amount;
use crate::amount::amount_eq_spec;
use crate::currency::Currency;
use crate::decimal::Decimal;
use crate::decimal::add_fits;
use crate::decimal::add_spec;
use crate::decimal::div_fits;
use crate::decimal::div_result;
use crate::decimal::mul_fits;
use crate::decimal::mul_spec;
use crate::decimal::sub_fits;
use crate::decimal::sub_spec;
use crate::error::CurrencyError;
use vstd::prelude::*;

verus! {

/// The outcome of monetary arithmetic: a wrapper around
/// `Result<Amount, CurrencyError>` that is closed under all the
/// arithmetic operators defined on [`Amount`].
#[derive(Clone, Copy, Debug)]
pub struct AmountResult(pub Result<Amount, CurrencyError>);

/// The wrapped amount, if any, is within the representable range.
pub open spec fn outcome_wf(x: Result<Amount, CurrencyError>) -> bool {
    x matches Ok(a) ==> a.well_formed()
}

/// The two outcomes are equal as the library understands equality:
/// identical errors, or amounts equal up to numeric value equality.
pub open spec fn outcome_equiv(
    x: Result<Amount, CurrencyError>,
    y: Result<Amount, CurrencyError>,
) -> bool {
    match x {
        Ok(a) => y matches Ok(b) && amount_eq_spec(a, b),
        Err(e) => y == Err::<Amount, CurrencyError>(e),
    }
}

/// `x` is a faithful representation of the canonical outcome `y`: the
/// same error, or a well-formed amount of the same currency whose
/// quantity is numerically equal and carries no more fractional digits
/// than the canonical representation.
pub open spec fn outcome_represents(
    x: Result<Amount, CurrencyError>,
    y: Result<Amount, CurrencyError>,
) -> bool {
    match x {
        Ok(a) => y matches Ok(c) && a.currency == c.currency && crate::decimal::dec_eqv(
            a.value,
            c.value,
        ) && a.value.scale <= c.value.scale && a.value.well_formed(),
        Err(e) => y == Err::<Amount, CurrencyError>(e),
    }
}

/// The canonical negation of an outcome: the quantity negated on success,
/// every error unchanged (including `Unknown`).
pub open spec fn outcome_neg(x: Result<Amount, CurrencyError>) -> Result<Amount, CurrencyError> {
    match x {
        Ok(a) => Ok(
            Amount {
                value: Decimal { mantissa: (-a.value.mantissa) as i128, scale: a.value.scale },
                currency: a.currency,
            },
        ),
        Err(e) => Err(e),
    }
}

/// The canonical sum of two outcomes, the heart of the design:
/// same-currency amounts add; differing currencies yield `Mismatch` with
/// the left operand's currency first; `Unknown` is transparent on either
/// side; any other error is absorbing, the left one winning.
pub open spec fn outcome_add(
    l: Result<Amount, CurrencyError>,
    r: Result<Amount, CurrencyError>,
) -> Result<Amount, CurrencyError> {
    match l {
        Ok(a) => match r {
            Ok(b) => if a.currency == b.currency {
                Ok(Amount { value: add_spec(a.value, b.value), currency: a.currency })
            } else {
                Err(CurrencyError::Mismatch(a.currency, b.currency))
            },
            Err(CurrencyError::Unknown) => Ok(a),
            Err(e) => Err(e),
        },
        Err(CurrencyError::Unknown) => r,
        Err(e) => Err(e),
    }
}

/// The canonical difference of two outcomes: as [`outcome_add`], except
/// that subtracting from `Unknown` negates the right operand.
pub open spec fn outcome_sub(
    l: Result<Amount, CurrencyError>,
    r: Result<Amount, CurrencyError>,
) -> Result<Amount, CurrencyError> {
    match l {
        Ok(a) => match r {
            Ok(b) => if a.currency == b.currency {
                Ok(Amount { value: sub_spec(a.value, b.value), currency: a.currency })
            } else {
                Err(CurrencyError::Mismatch(a.currency, b.currency))
            },
            Err(CurrencyError::Unknown) => Ok(a),
            Err(e) => Err(e),
        },
        Err(CurrencyError::Unknown) => outcome_neg(r),
        Err(e) => Err(e),
    }
}

/// The canonical scaling of an outcome by a scalar: the quantity
/// multiplied on success, every error unchanged.
pub open spec fn outcome_mul(x: Result<Amount, CurrencyError>, k: Decimal) -> Result<
    Amount,
    CurrencyError,
> {
    match x {
        Ok(a) => Ok(Amount { value: mul_spec(a.value, k), currency: a.currency }),
        Err(e) => Err(e),
    }
}

/// The canonical division of an outcome by a scalar: a pre-existing
/// non-`Unknown` error short-circuits before the zero check; otherwise a
/// zero divisor yields `DivideByZero` (also over `Unknown`); a wrapped
/// quantity is divided by a nonzero scalar.
pub open spec fn outcome_div(x: Result<Amount, CurrencyError>, k: Decimal) -> Result<
    Amount,
    CurrencyError,
> {
    match x {
        Ok(a) => if k.mantissa == 0 {
            Err(CurrencyError::DivideByZero)
        } else {
            Ok(
                Amount {
                    value: div_result(
                        a.value.mantissa as int,
                        a.value.scale as nat,
                        k.mantissa as int,
                        k.scale as nat,
                    ),
                    currency: a.currency,
                },
            )
        },
        Err(CurrencyError::Unknown) => if k.mantissa == 0 {
            Err(CurrencyError::DivideByZero)
        } else {
            Err(CurrencyError::Unknown)
        },
        Err(e) => Err(e),
    }
}

/// Both operands of an addition can be combined without leaving the
/// representable range.
pub open spec fn add_compat(
    l: Result<Amount, CurrencyError>,
    r: Result<Amount, CurrencyError>,
) -> bool {
    match (l, r) {
        (Ok(a), Ok(b)) => a.currency == b.currency ==> add_fits(a.value, b.value),
        _ => true,
    }
}

/// Both operands of a subtraction can be combined without leaving the
/// representable range.
pub open spec fn sub_compat(
    l: Result<Amount, CurrencyError>,
    r: Result<Amount, CurrencyError>,
) -> bool {
    match (l, r) {
        (Ok(a), Ok(b)) => a.currency == b.currency ==> sub_fits(a.value, b.value),
        _ => true,
    }
}

/// Scaling the wrapped amount, if any, stays representable.
pub open spec fn mul_compat(x: Result<Amount, CurrencyError>, k: Decimal) -> bool {
    x matches Ok(a) ==> mul_fits(a.value, k)
}

/// Dividing the wrapped amount, if any, by a nonzero `k` stays
/// representable.
pub open spec fn div_compat(x: Result<Amount, CurrencyError>, k: Decimal) -> bool {
    match x {
        Ok(a) => k.mantissa != 0 ==> div_fits(a.value, k),
        Err(_) => true,
    }
}

impl AmountResult {
    /// The wrapped amount, if any, is within the representable range.
    pub open spec fn well_formed(self) -> bool {
        outcome_wf(self.0)
    }

    /// Creates an `AmountResult` around [`CurrencyError::Unknown`].
    pub fn unknown() -> (r: AmountResult)
        ensures
            r.0 == Err::<Amount, CurrencyError>(CurrencyError::Unknown),
    {
        AmountResult(Err(CurrencyError::Unknown))
    }

    /// Creates an `AmountResult` around [`CurrencyError::Mismatch`].
    pub fn mismatch(c1: Currency, c2: Currency) -> (r: AmountResult)
        ensures
            r.0 == Err::<Amount, CurrencyError>(CurrencyError::Mismatch(c1, c2)),
    {
        AmountResult(Err(CurrencyError::Mismatch(c1, c2)))
    }

    /// Creates an `AmountResult` around [`CurrencyError::DivideByZero`].
    pub fn divide_by_zero() -> (r: AmountResult)
        ensures
            r.0 == Err::<Amount, CurrencyError>(CurrencyError::DivideByZero),
    {
        AmountResult(Err(CurrencyError::DivideByZero))
    }

    /// Extracts the inner `Result<Amount, CurrencyError>`, so the caller
    /// can use ordinary error propagation to stop a chain.
    pub fn into_inner(self) -> (r: Result<Amount, CurrencyError>)
        ensures
            r == self.0,
    {
        self.0
    }

    /// True if and only if `self` wraps an [`Amount`].
    pub fn is_ok(&self) -> (r: bool)
        ensures
            r == (self.0 matches Ok(_)),
    {
        match &self.0 {
            Ok(_) => true,
            Err(_) => false,
        }
    }

    /// True if and only if `self` wraps an error.
    pub fn is_err(&self) -> (r: bool)
        ensures
            r == (self.0 matches Err(_)),
    {
        !self.is_ok()
    }

    /// True if and only if `self` is an error of kind
    /// [`CurrencyError::Unknown`].
    pub fn is_unknown(&self) -> (r: bool)
        ensures
            r == (self.0 == Err::<Amount, CurrencyError>(CurrencyError::Unknown)),
    {
        match &self.0 {
            Err(CurrencyError::Unknown) => true,
            _ => false,
        }
    }

    /// True if and only if `self` is an error of kind
    /// [`CurrencyError::Mismatch`].
    pub fn is_mismatch(&self) -> (r: bool)
        ensures
            r == (self.0 matches Err(CurrencyError::Mismatch(_, _))),
    {
        match &self.0 {
            Err(CurrencyError::Mismatch(_, _)) => true,
            _ => false,
        }
    }

    /// True if and only if `self` is an error of kind
    /// [`CurrencyError::DivideByZero`].
    pub fn is_divide_by_zero(&self) -> (r: bool)
        ensures
            r == (self.0 == Err::<Amount, CurrencyError>(CurrencyError::DivideByZero)),
    {
        match &self.0 {
            Err(CurrencyError::DivideByZero) => true,
            _ => false,
        }
    }

    /// The absolute value of the wrapped amount; any error is kept
    /// unchanged.
    pub fn abs(&self) -> (r: AmountResult)
        requires
            self.well_formed(),
        ensures
            self.0 matches Ok(a) ==> r.0 matches Ok(b) && b.currency == a.currency
                && b.value.scale == a.value.scale && b.value.mantissa == vstd::math::abs(
                a.value.mantissa as int,
            ),
            self.0 matches Err(e) ==> r.0 == Err::<Amount, CurrencyError>(e),
            r.well_formed(),
    {
        match &self.0 {
            Ok(a) => AmountResult(Ok(a.abs())),
            Err(e) => AmountResult(Err(*e)),
        }
    }

    /// The wrapped amount converted into `target_currency` with the given
    /// exchange rate; any error is kept unchanged.
    pub fn converted_to(&self, target_currency: Currency, exchange_rate: Decimal) -> (r:
        AmountResult)
        requires
            self.well_formed(),
            exchange_rate.well_formed(),
            mul_compat(self.0, exchange_rate),
        ensures
            self.0 matches Ok(a) ==> r.0 matches Ok(b) && b.currency == target_currency
                && crate::decimal::is_prod(b.value, a.value, exchange_rate),
            self.0 matches Err(e) ==> r.0 == Err::<Amount, CurrencyError>(e),
            r.well_formed(),
    {
        match &self.0 {
            Ok(a) => AmountResult(Ok(a.converted_to(target_currency, exchange_rate))),
            Err(e) => AmountResult(Err(*e)),
        }
    }
}

/// The canonical left-to-right reduction of a sequence of outcomes under
/// [`outcome_add`], the empty sequence yielding `Unknown`. `Unknown` is
/// exactly the identity of this fold; a `Mismatch` or `DivideByZero`
/// anywhere poisons the reduction from that point on.
pub open spec fn spec_sum(s: Seq<Result<Amount, CurrencyError>>) -> Result<Amount, CurrencyError>
    decreases s.len(),
{
    if s.len() == 0 {
        Err(CurrencyError::Unknown)
    } else {
        outcome_add(spec_sum(s.drop_last()), s.last())
    }
}

/// Every step of the canonical reduction stays within the representable
/// range.
pub open spec fn sum_compat(s: Seq<Result<Amount, CurrencyError>>) -> bool
    decreases s.len(),
{
    if s.len() == 0 {
        true
    } else {
        sum_compat(s.drop_last()) && add_compat(spec_sum(s.drop_last()), s.last())
    }
}

/// Representation composes: a representation of a representation of a
/// canonical outcome represents that canonical outcome.
pub proof fn lemma_represents_trans(
    w: Result<Amount, CurrencyError>,
    u: Result<Amount, CurrencyError>,
    v: Result<Amount, CurrencyError>,
)
    requires
        outcome_represents(w, u),
        outcome_represents(u, v),
    ensures
        outcome_represents(w, v),
{
    match w {
        Ok(a) => {
            let au = u->Ok_0;
            let av = v->Ok_0;
            crate::decimal::lemma_eqv_trans(a.value, au.value, av.value);
        },
        Err(_) => {},
    }
}

/// The canonical sum of two well-formed, combinable outcomes is
/// well-formed.
pub proof fn lemma_outcome_add_wf(x: Result<Amount, CurrencyError>, y: Result<Amount, CurrencyError>)
    requires
        outcome_wf(x),
        outcome_wf(y),
        add_compat(x, y),
    ensures
        outcome_wf(outcome_add(x, y)),
{
}

/// Replacing the left operand of [`outcome_add`] by a faithful
/// representation keeps the addition combinable and its result a faithful
/// representation of the canonical one.
pub proof fn lemma_outcome_add_transfer(
    x: Result<Amount, CurrencyError>,
    y: Result<Amount, CurrencyError>,
    z: Result<Amount, CurrencyError>,
)
    requires
        outcome_represents(x, y),
        outcome_wf(y),
        outcome_wf(z),
        add_compat(y, z),
    ensures
        add_compat(x, z),
        outcome_represents(outcome_add(x, z), outcome_add(y, z)),
{
    match (x, y, z) {
        (Ok(a2), Ok(a), Ok(b)) => {
            if a.currency == b.currency {
                crate::decimal::lemma_add_transfer(a2.value, a.value, b.value);
            }
        },
        _ => {},
    }
}

/// The canonical reduction of a well-formed, combinable sequence is
/// well-formed at every prefix.
pub proof fn lemma_spec_sum_wf(s: Seq<Result<Amount, CurrencyError>>)
    requires
        forall|i: int| 0 <= i < s.len() ==> outcome_wf(#[trigger] s[i]),
        sum_compat(s),
    ensures
        outcome_wf(spec_sum(s)),
    decreases s.len(),
{
    if s.len() > 0 {
        lemma_spec_sum_wf(s.drop_last());
        lemma_outcome_add_wf(spec_sum(s.drop_last()), s.last());
    }
}

/// Combinability of a sequence passes down to every prefix, together with
/// the combinability of the next element with the prefix sum.
pub proof fn lemma_sum_compat_prefix(s: Seq<Result<Amount, CurrencyError>>, n: int)
    requires
        sum_compat(s),
        0 <= n <= s.len(),
    ensures
        sum_compat(s.take(n)),
        n < s.len() ==> add_compat(spec_sum(s.take(n)), s[n]),
    decreases s.len(),
{
    if n == s.len() {
        assert(s.take(n) =~= s);
    } else {
        let d = s.drop_last();
        assert(s.take(n) =~= d.take(n));
        if n == s.len() - 1 {
            assert(d.take(n) =~= d);
            assert(s[n] == s.last());
        } else {
            lemma_sum_compat_prefix(d, n);
            assert(s[n] == d[n]);
        }
    }
}

impl AmountResult {
    /// Reduces a sequence of outcomes left to right with the addition
    /// table, the empty sequence yielding `Unknown`.
    pub fn sum_results(items: &Vec<AmountResult>) -> (r: AmountResult)
        requires
            forall|i: int| 0 <= i < items@.len() ==> (#[trigger] items@[i]).well_formed(),
            sum_compat(items@.map_values(|x: AmountResult| x.0)),
        ensures
            outcome_represents(r.0, spec_sum(items@.map_values(|x: AmountResult| x.0))),
    {
        let ghost s = items@.map_values(|x: AmountResult| x.0);
        let mut acc = AmountResult::unknown();
        let mut i: usize = 0;
        proof {
            assert(s.take(0int) =~= Seq::<Result<Amount, CurrencyError>>::empty());
        }
        while i < items.len()
            invariant
                0 <= i <= items@.len(),
                s == items@.map_values(|x: AmountResult| x.0),
                forall|j: int| 0 <= j < items@.len() ==> (#[trigger] items@[j]).well_formed(),
                sum_compat(s),
                outcome_represents(acc.0, spec_sum(s.take(i as int))),
            decreases items@.len() - i,
        {
            proof {
                lemma_sum_compat_prefix(s, i as int);
                lemma_sum_compat_prefix(s, i + 1 as int);
                lemma_spec_sum_wf(s.take(i as int));
                lemma_outcome_add_transfer(acc.0, spec_sum(s.take(i as int)), s[i as int]);
            }
            let item = items[i];
            let ghost acc0 = acc.0;
            acc = acc.add_result(&item);
            i = i + 1;
            proof {
                assert(s.take(i as int).drop_last() =~= s.take(i - 1));
                assert(s.take(i as int).last() == s[i - 1]);
                lemma_represents_trans(
                    acc.0,
                    outcome_add(acc0, s[i - 1]),
                    outcome_add(spec_sum(s.take(i - 1)), s[i - 1]),
                );
            }
        }
        proof {
            assert(s.take(items@.len() as int) =~= s);
        }
        acc
    }

    /// Reduces a sequence of amounts left to right with the addition
    /// table, the empty sequence yielding `Unknown`.
    pub fn sum_amounts(items: &Vec<Amount>) -> (r: AmountResult)
        requires
            forall|i: int| 0 <= i < items@.len() ==> (#[trigger] items@[i]).well_formed(),
            sum_compat(items@.map_values(|x: Amount| Ok::<Amount, CurrencyError>(x))),
        ensures
            outcome_represents(
                r.0,
                spec_sum(items@.map_values(|x: Amount| Ok::<Amount, CurrencyError>(x))),
            ),
    {
        let ghost s = items@.map_values(|x: Amount| Ok::<Amount, CurrencyError>(x));
        let mut acc = AmountResult::unknown();
        let mut i: usize = 0;
        proof {
            assert(s.take(0int) =~= Seq::<Result<Amount, CurrencyError>>::empty());
        }
        while i < items.len()
            invariant
                0 <= i <= items@.len(),
                s == items@.map_values(|x: Amount| Ok::<Amount, CurrencyError>(x)),
                forall|j: int| 0 <= j < items@.len() ==> (#[trigger] items@[j]).well_formed(),
                sum_compat(s),
                outcome_represents(acc.0, spec_sum(s.take(i as int))),
            decreases items@.len() - i,
        {
            proof {
                lemma_sum_compat_prefix(s, i as int);
                lemma_sum_compat_prefix(s, i + 1 as int);
                lemma_spec_sum_wf(s.take(i as int));
                lemma_outcome_add_transfer(acc.0, spec_sum(s.take(i as int)), s[i as int]);
            }
            let item = items[i];
            let ghost acc0 = acc.0;
            acc = acc.add_amount(&item);
            i = i + 1;
            proof {
                assert(s.take(i as int).drop_last() =~= s.take(i - 1));
                assert(s.take(i as int).last() == s[i - 1]);
                lemma_represents_trans(
                    acc.0,
                    outcome_add(acc0, s[i - 1]),
                    outcome_add(spec_sum(s.take(i - 1)), s[i - 1]),
                );
            }
        }
        proof {
            assert(s.take(items@.len() as int) =~= s);
        }
        acc
    }
}

/// The textual rendering of an outcome: a success renders as its amount,
/// a failure as its error's message.
pub open spec fn spec_outcome_display(x: Result<Amount, CurrencyError>, precision: nat) -> Seq<
    char,
> {
    match x {
        Ok(a) => crate::amount::spec_display(a, precision),
        Err(e) => crate::error::spec_message(e),
    }
}

impl AmountResult {
    /// Renders the outcome with the requested number of fractional
    /// digits: a success exactly as its amount, a failure as its error's
    /// message.
    pub fn display_precision(&self, precision: usize) -> (r: String)
        requires
            self.well_formed(),
            self.0 matches Ok(a) ==> crate::decimal::format_fits(a.value, precision as nat),
        ensures
            r@ == spec_outcome_display(self.0, precision as nat),
    {
        match &self.0 {
            Ok(a) => a.display_precision(precision),
            Err(e) => e.message(),
        }
    }

    /// Renders the outcome at the default precision of two fractional
    /// digits, which every well-formed outcome fits.
    pub fn display(&self) -> (r: String)
        requires
            self.well_formed(),
        ensures
            r@ == spec_outcome_display(self.0, 2),
    {
        proof {
            match self.0 {
                Ok(a) => crate::decimal::lemma_format_fits_small(a.value, 2),
                Err(_) => (),
            }
        }
        self.display_precision(2)
    }
}

impl PartialEq for AmountResult {
    /// Equality of outcomes: identical errors, or equal amounts.
    fn eq(&self, other: &AmountResult) -> (r: bool) {
        match (&self.0, &other.0) {
            (Ok(a), Ok(b)) => *a == *b,
            (Err(e1), Err(e2)) => *e1 == *e2,
            _ => false,
        }
    }
}

impl vstd::std_specs::cmp::PartialEqSpecImpl for AmountResult {
    open spec fn obeys_eq_spec() -> bool {
        true
    }

    open spec fn eq_spec(&self, other: &AmountResult) -> bool {
        outcome_equiv(self.0, other.0)
    }
}

impl From<Amount> for AmountResult {
    /// Wraps an amount as a successful outcome.
    fn from(amount: Amount) -> (r: AmountResult) {
        AmountResult(Ok(amount))
    }
}

impl vstd::std_specs::convert::FromSpecImpl<Amount> for AmountResult {
    open spec fn obeys_from_spec() -> bool {
        true
    }

    open spec fn from_spec(amount: Amount) -> AmountResult {
        AmountResult(Ok(amount))
    }
}

impl From<CurrencyError> for AmountResult {
    /// Wraps an error as a failed outcome.
    fn from(error: CurrencyError) -> (r: AmountResult) {
        AmountResult(Err(error))
    }
}

impl vstd::std_specs::convert::FromSpecImpl<CurrencyError> for AmountResult {
    open spec fn obeys_from_spec() -> bool {
        true
    }

    open spec fn from_spec(error: CurrencyError) -> AmountResult {
        AmountResult(Err(error))
    }
}

} // verus!
