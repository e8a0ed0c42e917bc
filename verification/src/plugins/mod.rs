//! Sandboxed plugins. A guest module has one door back into the vault, a call
//! of the tools that its manifest names, and it runs under fuel and memory
//! limits that no manifest can raise.
pub mod abi;
pub mod effects;
pub mod host;
pub mod manifest;
pub mod registry;
