//! A plugin-composed task scheduler: compositions of crates contribute tasks
//! and datachunks; tasks declare dependencies and shared-state access intents.
//! The library validates a composition, partitions it into linear fulfiller
//! chains, and models the dependency-gated, cancellable execution of those
//! chains together with full and partial reload of the composition.

pub mod access;
pub mod chains;
pub mod codec;
pub mod control_flow;
pub mod errors;
pub mod fulfiller;
pub mod getter;
pub mod identify;
pub mod instance;
pub mod loaded;
pub mod mutable_arc;
pub mod ready;
pub mod statics;
pub mod unloaded;
pub mod validator;

use vstd::prelude::*;

verus! {

} // verus!
