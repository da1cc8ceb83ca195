//! Ordering engine for the entries of a file listing: five sort modes, case
//! folding, digit-aware natural order and a directories-first rule that is
//! independent of the reverse flag.
use vstd::prelude::*;

pub mod file;
pub mod natural;
pub mod partition;
pub mod sorter;
pub mod text;

verus! {

/// Sets up the library. The sorter keeps no global state, so there is nothing
/// to prepare; the function exists so that callers can keep one start-up path.
pub fn init() {
}

} // verus!
