//! The two classes of failure: a schema that cannot be compiled, and a stream that runs short.
use vstd::prelude::*;

verus! {

/// Why a record declaration could not be turned into a codec.
#[derive(Clone, Copy, Debug, PartialEq, Eq, Structural)]
pub enum SchemaError {
    /// The record is not a struct whose fields are all named.
    UnsupportedShape,
    /// One field names two different byte orders.
    ConflictingByteOrder,
    /// A `pad` annotation whose parameters are not `bytes = N` with `N` an integer literal.
    MalformedPadding,
    /// An array length written as a literal that is not a non-negative integer.
    MalformedArrayLength,
    /// A byte order given for a nested record that is read in full.
    ByteOrderOnRecord,
    /// The byte length of the layout, or of a record inside it, exceeds `usize::MAX`.
    LayoutTooLarge,
}

/// Why a decode or an encode did not complete.
#[derive(Clone, Copy, Debug, PartialEq, Eq, Structural)]
pub enum CodecError {
    /// The source holds fewer bytes than the layout needs.
    ShortRead,
    /// The value handed to an encoder does not have the shape of the record.
    ValueMismatch,
}

} // verus!
