//! Locates the lives counter of a running Broforce and rewrites it.
//!
//! The library holds every decision of the trainer: the PE export parser, the
//! x64 stub that queries the mono runtime, the protocol spoken with the target
//! process, and the state behind the window. It performs no I/O itself: what has to be
//! done to the target is handed out as requests, and their answers come back as
//! plain values.

pub mod app;
pub mod bytes;
pub mod execution;
pub mod image;
pub mod inject;
pub mod locating;
pub mod log;
pub mod lookups;
pub mod machine;
pub mod messages;
pub mod mono;
pub mod pe;
pub mod protocol;
pub mod remote;
pub mod resuming;
pub mod rows;
pub mod text;
pub mod trainer;
pub mod win32;
pub mod x64;
