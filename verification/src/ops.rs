//! The arithmetic operator table: addition, subtraction, scaling,
//! division, negation and cross-kind equality over [`crate::Amount`] and
//! [`crate::AmountResult`].

mod add;
mod div;
mod eq;
mod mul;
mod neg;
mod sub;
