//! Bluetooth LE bookkeeping: the event queue, scan results, advertisement
//! parsing and the registry of devices seen.
use vstd::prelude::*;

pub mod adv_handler;
pub mod advertisement;
pub mod event;
pub mod manager;
pub mod registry;
pub mod scanner;

verus! {

} // verus!
