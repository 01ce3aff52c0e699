//! Error taxonomy of the library: each variant names one failure that a
//! component reports to the top-level flow, which prints a message and exits.

use vstd::prelude::*;

verus! {

/// Failure of the device catalog: no qualifying USB device entry was
/// found. (An unreadable device-tree root fails in the caller doing the
/// reading, before the catalog is built.)
#[derive(Clone, Copy, PartialEq, Eq, Structural, Debug)]
pub enum EnumerationError {
    NoDevices,
}

/// Malformed identifier input to the rule synthesizer.
#[derive(Clone, Copy, PartialEq, Eq, Structural, Debug)]
pub enum ValidationError {
    /// A direct identifier did not contain exactly one colon.
    IdentifierShape,
    /// The vendor token is empty or holds a non-hex character.
    VendorId,
    /// The product token is empty or holds a non-hex character.
    ProductId,
}

/// Failure of a rule-store operation.
#[derive(Clone, Copy, PartialEq, Eq, Structural, Debug)]
pub enum IoError {
    /// The named rule file does not exist.
    NotFound,
}

/// No usable editor could be resolved for the manual-edit path.
#[derive(Clone, Copy, PartialEq, Eq, Structural, Debug)]
pub enum EditorError {
    NoEditor,
}

} // verus!
