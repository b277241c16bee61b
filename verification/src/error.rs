//! The typed failures of rule construction: everything later in the
//! scheduler works on rules that construction has already validated.

use vstd::prelude::*;

verus! {

#[derive(Clone, Copy, PartialEq, Eq, Structural, Debug)]
pub enum Error {
    /// The time of day was not a well-formed `"HH:MM"` string.
    Time,
    /// The hour or minute component was out of range.
    InvalidTime,
    /// The weekday mask named no day, or used the unused high bit: such a
    /// rule would never fire.
    InvalidDay,
}

} // verus!
