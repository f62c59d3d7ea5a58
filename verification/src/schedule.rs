//! Ordered slots for process execution and I/O systems.

use vstd::prelude::*;

verus! {

/// Ordered slots for process execution and I/O systems.
#[derive(Clone, Copy, Debug, PartialEq, Eq, Hash, PartialOrd, Ord)]
pub enum ProcessSystems {
    /// Demux endpoint input into process-local buffers.
    QueueInput,
    /// Dispatch registered program systems.
    RunPrograms,
    /// Resolve process writes through descriptor tables.
    RouteWrites,
    /// Remove I/O state belonging to dead processes.
    Cleanup,
}

} // verus!
