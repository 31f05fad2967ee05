//! Spawn a child process attached to a pseudo-terminal and manage its
//! lifecycle.
//!
//! The portable [`Command`] builder collects a program, its arguments, a set
//! of environment overrides and an optional working directory.  The encoder
//! modules turn those into the byte-exact native representations (a quoted
//! command line and a nul-delimited environment block), and [`PtyProcess`]
//! owns the spawned child: one-time retrieval of the I/O endpoints, a
//! configurable kill timeout, and an exit-status record.  The operating-system
//! calls themselves (pipe and console allocation, process creation, signals)
//! live outside this crate; everything here is pure computation over plain
//! values and is verified.

pub mod cmdline;
pub mod command;
pub mod env;
pub mod envblock;
pub mod error;
pub mod laws;
pub mod lookup;
pub mod process;
pub mod spawn;
pub mod wide;

pub use command::Command;
pub use error::Error;
pub use process::PtyProcess;
