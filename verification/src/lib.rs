//! A concurrent TCP port scanner library.
//!
//! The verified core has three parts:
//! - `ports`: resolves a user-supplied port specification string (single
//!   port, comma list, dash range, or a mix) into a concrete sequence of
//!   16-bit port numbers, falling back to the default range 1-1024 on
//!   unparseable input;
//! - `engine`: the bounded-concurrency scan state machine, which admits
//!   probes one at a time while keeping the number of outstanding probes
//!   at or below the configured concurrency limit, and knows when every
//!   port has been probed exactly once;
//! - `report`: classification of probe outcomes into the per-port output
//!   lines, with a verified decimal rendering of port numbers;
//! - `laws`: proofs of what resolution yields on every single-port and
//!   every well-formed range specification.
//!
//! Network I/O itself (opening TCP connections, applying timeouts) is left
//! to the embedding program, which drives the state machine and performs
//! one probe per admitted port.

pub mod engine;
pub mod laws;
pub mod ports;
pub mod report;
