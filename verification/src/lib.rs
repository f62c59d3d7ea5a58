//! Process management primitives: process-local file descriptors, endpoint
//! routing of process I/O, program registration, signals and stdio messages.
//!
//! The library holds the bookkeeping and the routing decisions; an ECS
//! integration hands it plain values read from the world and applies the
//! messages it returns.

pub mod ecs_types;
pub mod endpoints;
pub mod io;
pub mod laws;
pub mod process;
pub mod routing;
pub mod schedule;
pub mod signals;
pub mod stdio;
