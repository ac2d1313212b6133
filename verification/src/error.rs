//! Errors of the checks that need no arithmetic on fractional values: text structure,
//! zone numbers, and the 100 km square letters.
use vstd::prelude::*;

verus! {

/// Every way the integer and textual checks can reject an input.
#[derive(Debug, Clone, Copy, PartialEq, Eq)]
pub enum GeoError {
    /// UTM zone outside 1..=60.
    InvalidUtmZone(u8),
    /// A grid rule rejected the input; the message says which.
    OutOfProjectionBounds(&'static str),
    /// Text could not be parsed; the message says what was expected.
    InvalidFormat(&'static str),
}

} // verus!
