//! Control plane of a distributed dataflow cluster.
//!
//! A single controller process accepts registrations from worker processes,
//! tracks their liveness through heartbeats, and decides when a worker is to
//! be admitted to the shared cluster topology or marked failed.  The modules
//! here hold the controller's decision logic: the worker registry with its
//! status model, the periodic liveness sweep, and the event-loop dispatch
//! rules.  Network I/O, clocks, and the dataflow graph itself live outside;
//! they hand the library plain values (addresses, timestamps, connection
//! tokens) and carry out the actions the library hands back.

pub mod addr;
pub mod codec;
pub mod controller;
pub mod laws;
pub mod registry;
