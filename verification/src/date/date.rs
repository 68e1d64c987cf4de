//! A moment in time by its calendar fields.

use vstd::prelude::*;

verus! {

/// A date and a time of day. The fields are held as given: nothing says that
/// they name a day that exists.
#[derive(Debug, Clone, Copy, PartialEq, Eq, Structural)]
pub struct Date {
    pub year: i32,
    pub month: u8,
    pub day: u8,
    pub hour: u8,
    pub minute: u8,
    pub second: u8,
}

} // verus!
