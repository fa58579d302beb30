//! Options for building a server.
use vstd::prelude::*;

verus! {

/// Options used when building a server.
///
/// `Default::default()` should be sufficient for all but the most demanding applications.
#[derive(Clone, Copy, Debug, PartialEq, Eq, Structural)]
pub struct ServerOptions {
    /// Estimate of the expected number of nodes on the server's root graph.  Going over it may glitch briefly while
    /// the server reallocates.
    pub expected_nodes: usize,
    /// Number of connections expected on the server's root graph.  Going over it may glitch briefly while the server
    /// reallocates.
    pub expected_connections: usize,
    /// How many blocks the server-level block allocator makes available up front.
    pub preallocated_blocks: usize,
}

impl Default for ServerOptions {
    fn default() -> (r: Self)
        ensures
            r.expected_nodes == 2048,
            r.expected_connections == 2048 * 16,
            r.preallocated_blocks == 35536,
    {
        ServerOptions { expected_nodes: 2048, expected_connections: 2048 * 16, preallocated_blocks: 35536 }
    }
}

} // verus!
