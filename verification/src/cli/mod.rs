//! The command line: what arguments ask for, and what is shown of the outcome.
pub mod effects;
pub mod plugin;
pub mod server;
pub mod sync;
