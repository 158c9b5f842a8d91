//! A simulated socket and file-descriptor layer: system calls are carried out
//! against in-memory kernel objects (sockets, pipes) instead of a real
//! operating system, inside a single-threaded discrete-event simulation.

use vstd::prelude::*;

pub mod abi;
pub mod callback;
pub mod condition;
pub mod context;
mod counting;
pub mod descriptor;
mod errno;
pub mod file;
pub mod format;
pub mod handler;
pub mod mem;
pub mod sockops;
pub mod types;

pub use errno::Errno;
