//! The client's options.

use vstd::prelude::*;

verus! {

/// Where the client connects, and the name it gives.
#[derive(Debug, Clone)]
pub struct Opt {
    /// Local or remote store.
    pub host: String,
    /// Host port.
    pub port: usize,
    pub name: String,
}

} // verus!
