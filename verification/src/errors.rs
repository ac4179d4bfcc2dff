use vstd::prelude::*;

verus! {

/// The failures that the library's fallible operations report.
#[derive(Clone, Copy, Debug, PartialEq, Eq, Structural)]
pub enum Error {
    /// A textual numeral is malformed, the parsed value does not fit in the
    /// fixed width, or an index argument is not representable as an
    /// unsigned machine integer.
    InvalidArgument,
    /// A byte buffer has the wrong length for the canonical encoding.
    DeserializationError,
    /// The divisor is the zero value.
    DivisionByZero,
}

} // verus!
