//! A monetary-value algebra: amounts of money tagged with a currency,
//! together with an error-coalescing result wrapper that lets arithmetic
//! chains proceed through currency mismatches, division by zero and empty
//! reductions without early-return control flow.

mod amount;
mod codec;
mod currency;
mod decimal;
mod error;
mod laws;
mod ops;
mod result;

pub use amount::Amount;
pub use amount::amount_eq_spec;
pub use amount::spec_compare;
pub use amount::spec_display;

pub use codec::catalogued;
pub use codec::decode_amount;
pub use codec::decode_decimal;
pub use codec::decode_error;
pub use codec::encode_amount;
pub use codec::encode_error;
pub use codec::error_catalogued;
pub use codec::lemma_render_dec_injective;
pub use codec::render_amount;
pub use codec::render_dec;
pub use codec::render_decimal;
pub use codec::render_error;

pub use currency::Currency;
pub use currency::currency_code;
pub use currency::currency_registered;
pub use currency::currency_symbol;

pub use decimal::Decimal;
pub use decimal::MANTISSA_LIMIT;
pub use decimal::MAX_SCALE;
pub use decimal::add_fits;
pub use decimal::add_spec;
pub use decimal::common_scale;
pub use decimal::dec_eqv;
pub use decimal::dec_lt;
pub use decimal::diff_mantissa;
pub use decimal::div_fits;
pub use decimal::format_fits;
pub use decimal::div_result;
pub use decimal::format_result;
pub use decimal::is_diff;
pub use decimal::is_prod;
pub use decimal::is_sum;
pub use decimal::mul_fits;
pub use decimal::mul_spec;
pub use decimal::pow10;
pub use decimal::sub_fits;
pub use decimal::sub_spec;
pub use decimal::sum_mantissa;

pub use error::CurrencyError;
pub use error::spec_message;

pub use laws::lemma_add_sub_cancel;
pub use laws::lemma_divide_by_zero;
pub use laws::lemma_error_absorbs;
pub use laws::lemma_mismatch_order;
pub use laws::lemma_sum_absorbs_unknown;
pub use laws::lemma_sum_empty;
pub use laws::lemma_sum_singleton;
pub use laws::lemma_unknown_identity;

pub use result::AmountResult;
pub use result::add_compat;
pub use result::div_compat;
pub use result::mul_compat;
pub use result::outcome_add;
pub use result::outcome_div;
pub use result::outcome_equiv;
pub use result::outcome_mul;
pub use result::outcome_neg;
pub use result::outcome_represents;
pub use result::outcome_sub;
pub use result::outcome_wf;
pub use result::spec_outcome_display;
pub use result::spec_sum;
pub use result::sub_compat;
pub use result::sum_compat;
