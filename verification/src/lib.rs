//! A verified core for the ABD single-writer / multi-reader atomic register
//! protocol: the Writer, Reader and Server state machines, their messages,
//! the per-actor backlog discipline and the quorum arithmetic.
//!
//! The core is purely computational: each state machine is a function from a
//! state and an incoming message to a new state and the effects to perform
//! (broadcasts to send, completions to report). An embedding program owns the
//! actual message transport, performs the effects, and feeds replies back in.

pub mod messages;
pub mod protocol;
pub mod quorum;
pub mod reader;
pub mod server;
pub mod writer;
