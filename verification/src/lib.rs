//! A plugin host core: it brokers request/response and notification traffic
//! between an editor core, sandboxed plugins, and spawned language-server
//! processes, and manages plugin discovery, lifecycle, and persistence of the
//! disabled-plugin set.

pub mod chan;
pub mod descriptor;
pub mod json;
pub mod catalog;
pub mod lifecycle;
pub mod lock;
pub mod path;
pub mod pipe;
pub mod router;
pub mod rpc;
pub mod strutil;

use vstd::prelude::*;

verus! {

/// Process-wide identity of one loaded sandbox, assigned at sandbox creation
/// and never reused.
#[derive(Clone, Copy, Debug, PartialEq, Eq, Hash, Structural)]
pub struct PluginId(pub u64);

} // verus!
