//! A relay core: form submissions are re-encoded into fixed binary frames and
//! handed, together with periodic heartbeat frames, to a FIFO transfer queue
//! that a single connection writer drains onto one TCP socket.
//!
//! This crate holds the verified logic: the frame codec, the form-body field
//! extraction, the date stamp, the transfer queue contracts, the request
//! handler and the writer state machine. The surrounding process (HTTP server,
//! TCP socket, timers, daemonization) lives outside and calls in with plain
//! values.

pub mod date;
pub mod errors;
pub mod form;
pub mod frame;
pub mod ingest;
pub mod queue;
pub mod writer;
