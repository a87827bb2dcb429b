//! Bookkeeping for a set of local relay instances: each distinct relay
//! configuration gets one loopback listener, shared by reference count.
//!
//! - `key`: the identity of a relay configuration.
//! - `endpoint`: listen addresses, transport descriptors and endpoints.
//! - `registry`: the table of running instances and its laws.
//! - `workers`: which forwarding workers an instance spawns.
//! - `init`: one-time setup of process-wide subsystems.
use vstd::prelude::*;

pub mod endpoint;
pub mod init;
pub mod key;
pub mod registry;
pub mod text;
pub mod workers;

verus! {

} // verus!
