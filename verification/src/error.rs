//! What can be wrong with a piece of text handed to one of the parsers.

use vstd::prelude::*;

verus! {

/// The kind of text that could not be read.
#[derive(Clone, Copy, Debug, PartialEq, Eq, Structural)]
pub enum ParseError {
    /// A version: no number at the front, a number too large, or a malformed modifier.
    Version,
    /// An interpreter tag such as `cp37`.
    Tag,
    /// A constraint: an operator followed by a version.
    Constraint,
    /// A requirement: a name with its constraints.
    Requirement,
    /// A platform name.
    Os,
    /// A wheel file name.
    WheelName,
    /// A search pattern that the pattern engine did not accept.
    Pattern,
}

} // verus!
