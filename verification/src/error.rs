//! The ways in which an operation of the navigator can fail.

use vstd::prelude::*;

verus! {

/// Why an operation could not be carried out.
#[derive(Clone, Copy, Debug, PartialEq, Eq, Structural)]
pub enum NavigatorError {
    /// The text cannot be read as a hierarchy.
    MalformedInput,
    /// The search string is not a regular expression.
    InvalidRegex,
    /// Nothing is shown, so nothing is selected.
    EmptySelection,
}

} // verus!
