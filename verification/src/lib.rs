//! Tracing and breakpoint engine of an x86-64 process debugger, with a cache
//! of decoded instructions around the instruction pointer.
//!
//! The engine never talks to the kernel itself. Every operation is split into
//! the list of [`tracing::Request`]s that carries it out and the change of the
//! debugger's own state that follows once the kernel has answered. A driver
//! performs the requests one after the other and hands the answers back; a
//! failed or missing answer leaves the state as it was.
//!
//! What the requests do to the traced process is described by a model of it,
//! [`tracing::Target`], and the laws of the engine are proved of that model:
//! that a write changes the bytes written and no others, that a breakpoint
//! which was installed and taken out again leaves no trace, that the decoder
//! never sees a trap.
//!
//! - [`tracing`]: requests, answers and the model of the traced process
//! - [`word`], [`memory`]: bytes and words, reading and writing memory
//! - [`registers`]: the register snapshot and the layout of the user area
//! - [`breakpoint`]: software and hardware breakpoints
//! - [`debugee`]: the traced process as the debugger knows it
//! - [`changes`]: what holds of the process after any changes to its breakpoints
//! - [`status`]: wait statuses
//! - [`decoder`], [`disassembly`]: the instruction cache
//! - [`hex_view`]: the byte cache of a hex display
//! - [`address`]: addresses typed in by the user
//! - [`error`]: what can go wrong

pub mod address;
pub mod breakpoint;
pub mod changes;
pub mod debugee;
pub mod decoder;
pub mod disassembly;
pub mod error;
pub mod hex_view;
pub mod memory;
pub mod registers;
pub mod status;
pub mod tracing;
pub mod word;
