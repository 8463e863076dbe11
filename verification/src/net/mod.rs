//! The decisions of the TCP/HTTP client; the sockets themselves live outside the library.
use vstd::prelude::*;

pub mod client;

verus! {

} // verus!
