use vstd::prelude::*;

verus! {

/// Errors of the wire protocol itself.
#[derive(Debug, Clone, Copy, PartialEq, Eq)]
pub enum Errors {
    InvalidFileExt(u8),
    InvalidCommand(u8),
}

} // verus!
