//! A local development service for smart-contract projects: it picks the compiler
//! version that the sources ask for, folds bursts of file changes into one compile,
//! turns each compile into a message for live viewers, keeps the latest message for
//! newcomers, and tracks the simulator processes that it supervises.

pub mod text;
pub mod version;
pub mod toolchain;
pub mod anvil;
pub mod watch;
pub mod snapshot;
pub mod hub;
