use vstd::prelude::*;

verus! {

/// Why an operation of the store failed.
#[derive(Debug, Clone, Copy, PartialEq, Eq, Structural)]
pub enum Error {
    /// A table or column name that the statement refers to does not exist.
    NotFound,
    /// A value whose variant does not match the declared type of its column.
    TypeMismatch,
    /// Bytes that are no encoding: a field reaches past the end, a type tag
    /// is unknown, or a name or string value is not UTF-8.
    MalformedEncoding,
    /// The underlying read or write failed.
    IoFailure,
}

} // verus!
