//! The sending side's settings.
use vstd::prelude::*;

verus! {

/// Where the sender keeps its files and where it connects to.
pub struct Config {
    pub cache: String,
    pub dial: String,
}

} // verus!
