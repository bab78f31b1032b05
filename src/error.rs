use vstd::prelude::*;

verus! {

/// The failures that tablet enumeration distinguishes.
#[derive(Clone, Copy, Debug, PartialEq, Eq, Structural)]
pub enum InfoError {
    /// The hardware-description database, or its error context, could not be opened.
    ServiceUnavailable,
    /// The input-device directory could not be listed.
    NamespaceUnavailable,
    /// A numeric field lay outside the range of the normalised type.
    ConversionError,
}

} // verus!
