//! The ways in which a header can fail to yield a table.

use vstd::prelude::*;

verus! {

/// Why the text of a header gave no table of definitions.
#[derive(Clone, Copy, Debug, PartialEq, Eq, Structural)]
pub enum ParseError {
    /// The header holds no definition of the expected shape.
    NoDefinitions,
    /// A definition gives a number that does not fit in eight bits.
    NumericOverflow,
    /// A definition was found, but its name or its number cannot be read.
    MalformedDefinition,
    /// The pattern that describes a definition is not a regular expression.
    InvalidPattern,
}

} // verus!
