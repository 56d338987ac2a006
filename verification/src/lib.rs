//! The core of a streaming dataflow engine.
//!
//! Operators are wired into a directed graph of typed streams. The driver
//! builds the graph with the connect functions; each node then resolves the
//! streams of its operators to endpoints and brings up one executor per
//! operator. Executors exchange messages only through streams.
//!
//! - [`ids`]: the identities of streams and operators.
//! - [`config`]: what the driver says about an operator.
//! - [`graph`]: the graph under construction, and the check that it can run.
//! - [`stream`]: stream handles, messages, and the two ends of a stream.
//! - [`connect`]: one connect function per operator shape, and what brings
//!   the connected operator up.
//! - [`channel_manager`]: the endpoints of one node.
//! - [`operator`]: the callbacks that an operator's author writes.
//! - [`executors`]: what runs an operator, one step at a time.
//! - [`progress`]: when an operator with two inputs passes progress on.
//! - [`state`] and [`pool`]: the merged state and the workers of a parallel
//!   operator.
//! - [`wire`]: messages as frames of bytes, for streams that cross nodes.
pub mod channel_manager;
pub mod config;
pub mod connect;
pub mod executors;
pub mod graph;
pub mod ids;
pub mod operator;
pub mod pool;
pub mod progress;
pub mod state;
pub mod stream;
pub mod wire;
