//! The relay: stores and fans out the encrypted updates of vaults.
pub mod base64;
pub mod effects;
pub mod hub;
pub mod log;
pub mod session;
pub mod wire;
