//! The SD card: the classification of its errors and the fixed clock that
//! stamps files.
use vstd::prelude::*;

pub mod time;
pub mod volume;

verus! {

} // verus!
