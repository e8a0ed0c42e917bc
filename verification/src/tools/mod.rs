//! The tools that agents and plugins call on a vault.
pub mod answer;
pub mod args;
pub mod effects;
pub mod laws;
pub mod registry;
pub mod shape;
pub mod table;
