//! Errors.

use vstd::prelude::*;

verus! {

/// What can go wrong in the library.
#[derive(Debug)]
pub enum Error {
    /// A route pattern with a parameter, a group or a character class holds
    /// a character outside ASCII.
    PatternNotAscii,
    /// The expression that a route pattern compiles to is rejected; the
    /// text says why.
    Regex(String),
    /// Anything else, as text.
    Error(String),
}

pub type Result<T> = core::result::Result<T, Error>;

} // verus!
