//! Cross-process coordination core for a fleet of fix-applying build workers.
//!
//! A build orchestrator spawns many concurrent worker processes, several of
//! which may need to rewrite the same source file or report progress to the
//! same terminal.  This crate holds the logic that keeps them coherent:
//!
//! * [`locks`]: a path-keyed mutual-exclusion table with strict FIFO grant
//!   order, idempotent re-acquisition, and disconnection treated as release;
//! * [`render`]: the terminal rendering of structured worker messages;
//! * [`message`]: the structured messages workers send;
//! * [`aggregate`]: the single-consumer aggregator that renders messages in
//!   strict arrival order, never interleaving two messages' output;
//! * [`vcs`]: the version-control safety check run before any file is touched;
//! * [`session`]: the supervisor's propagation of the orchestrator's exit
//!   status.
//!
//! The I/O that carries these values between processes (sockets, environment
//! variables, the terminal itself) lives outside this crate.
#![allow(unused_imports)]
use vstd::prelude::*;

pub mod aggregate;
pub mod locks;
pub mod message;
pub mod render;
pub mod session;
pub mod vcs;
