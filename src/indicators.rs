//! Errors of the price indicators.

use crate::text::string_of;
use vstd::prelude::*;

verus! {

/// Error type for indicators.
#[derive(Debug, PartialEq, Eq, Structural, Clone, Copy)]
pub enum IndicatorError {
    /// The period is zero or longer than the input.
    InvalidPeriod,
}

impl IndicatorError {
    /// The error's message.
    pub fn message(&self) -> (r: String)
        ensures
            r@ == "invalid period"@,
    {
        string_of("invalid period")
    }
}

} // verus!
