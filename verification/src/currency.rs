//! Currencies, identified by their ISO 4217 numeric code. The catalogue
//! itself (codes, symbols) lives in the `iso_currency` crate; the identity
//! that the algebra compares is the plain numeric code.

use vstd::prelude::*;

verus! {

/// A currency, identified by its ISO 4217 numeric code (for example 978
/// for the euro). Two currencies are the same exactly when their numeric
/// codes are equal.
#[derive(Clone, Copy, Debug, PartialEq, Eq, Structural, Hash)]
pub struct Currency {
    pub numeric: u16,
}

/// Whether the catalogue lists a currency under this numeric code.
pub uninterp spec fn currency_registered(numeric: u16) -> bool;

/// The three-letter ISO 4217 code of the currency with this numeric code,
/// or the empty string where the catalogue lists none.
pub uninterp spec fn currency_code(numeric: u16) -> Seq<char>;

/// The display symbol of the currency with this numeric code, or the
/// empty string where the catalogue lists none.
pub uninterp spec fn currency_symbol(numeric: u16) -> Seq<char>;

impl Currency {
    /// Looks the numeric code up in the catalogue.
    ///
    /// Relies on `iso_currency::Currency::from_numeric`: it returns `Some`
    /// exactly for the numeric codes the catalogue lists.
    #[verifier::external_body]
    pub fn from_numeric(numeric: u16) -> (r: Option<Currency>)
        ensures
            r == if currency_registered(numeric) {
                Some(Currency { numeric })
            } else {
                None::<Currency>
            },
    {
        iso_currency::Currency::from_numeric(numeric).map(|_| Currency { numeric })
    }

    /// Looks a three-letter code up in the catalogue.
    ///
    /// Relies on `iso_currency::Currency::from_code`: it returns the
    /// catalogue entry whose three-letter code matches the argument
    /// exactly, and codes identify entries uniquely, so a currency whose
    /// code is the argument is the result.
    #[verifier::external_body]
    pub fn from_code(code: &str) -> (r: Option<Currency>)
        ensures
            r matches Some(c) ==> currency_registered(c.numeric) && currency_code(c.numeric)
                == code@,
            forall|n: u16|
                currency_registered(n) && currency_code(n) == code@ ==> r == Some(
                    (Currency { numeric: n }),
                ),
    {
        iso_currency::Currency::from_code(code).map(
            |c| Currency { numeric: c.numeric() },
        )
    }

    /// The euro.
    ///
    /// Relies on the `iso_currency` catalogue: EUR is listed with numeric
    /// code 978, alphabetic code `EUR` and symbol `€`.
    #[verifier::external_body]
    pub fn eur() -> (c: Currency)
        ensures
            c.numeric == 978 && currency_registered(c.numeric),
            currency_code(c.numeric) == "EUR"@,
            currency_symbol(c.numeric) == "\u{20ac}"@,
    {
        Currency { numeric: iso_currency::Currency::EUR.numeric() }
    }

    /// The United States dollar.
    ///
    /// Relies on the `iso_currency` catalogue: USD is listed with numeric
    /// code 840, alphabetic code `USD` and symbol `$`.
    #[verifier::external_body]
    pub fn usd() -> (c: Currency)
        ensures
            c.numeric == 840 && currency_registered(c.numeric),
            currency_code(c.numeric) == "USD"@,
            currency_symbol(c.numeric) == "$"@,
    {
        Currency { numeric: iso_currency::Currency::USD.numeric() }
    }

    /// The three-letter ISO 4217 code, or the empty string for a numeric
    /// code the catalogue does not list.
    ///
    /// Relies on `iso_currency::Currency::code`: the catalogued code is
    /// three uppercase ASCII letters.
    #[verifier::external_body]
    pub fn code(&self) -> (r: String)
        ensures
            r@ == currency_code(self.numeric),
            currency_registered(self.numeric) ==> r@.len() == 3 && (forall|i: int|
                0 <= i < r@.len() ==> 'A' <= #[trigger] r@[i] <= 'Z'),
            !currency_registered(self.numeric) ==> r@.len() == 0,
    {
        match iso_currency::Currency::from_numeric(self.numeric) {
            Some(c) => c.code().to_owned(),
            None => String::new(),
        }
    }

    /// The display symbol, or the empty string for a numeric code the
    /// catalogue does not list.
    ///
    /// Relies on `iso_currency::Currency::symbol`: the symbol is a
    /// function of the catalogue entry alone.
    #[verifier::external_body]
    pub fn symbol(&self) -> (r: String)
        ensures
            r@ == currency_symbol(self.numeric),
    {
        match iso_currency::Currency::from_numeric(self.numeric) {
            Some(c) => c.symbol().to_string(),
            None => String::new(),
        }
    }
}

} // verus!
