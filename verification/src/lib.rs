//! A gravitational N-body simulation core.
//!
//! Bodies whose masses and sizes span many orders of magnitude are
//! simulated with a scientific-notation numeric type, `SciFloat`,
//! which keeps every value as a normalized mantissa/exponent pair so
//! that no intermediate quantity can overflow or underflow the way a
//! fixed-width machine number would.  The force pass and the
//! integration pass are verified against exact functional
//! specifications of that arithmetic.

pub mod cel_body;
pub mod cli;
pub mod sci_float;
pub mod sim;

use vstd::prelude::*;

verus! {

use crate::cel_body::BodyBuilder;

/// The bodies' initial conditions, as loaded from structured data by
/// the surrounding application.
#[derive(Debug)]
pub struct JsonData(pub Vec<BodyBuilder>);

} // verus!
