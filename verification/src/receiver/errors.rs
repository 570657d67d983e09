use vstd::prelude::*;

verus! {

/// Errors of the receiving side.
#[derive(Debug, Clone, Copy, PartialEq, Eq)]
pub enum Errors {
    /// The sender speaks the first version, the receiver the second.
    VersionMismatch(u8, u8),
}

} // verus!
