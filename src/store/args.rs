//! The options of a store node.

use vstd::prelude::*;

verus! {

/// Where a node listens, its role, and for a follower the leader's address.
#[derive(Debug, Clone)]
pub struct Opt {
    /// Local or remote store; must be an actual IP (not localhost) to allow
    /// remote connections.
    pub host: String,
    /// Host port.
    pub port: usize,
    /// "leader" or "follower".
    pub role: String,
    /// The leader's address, for a follower.
    pub follow: Option<String>,
}

} // verus!
