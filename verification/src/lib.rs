//! A verified engine for a Markdown vault that people and agents share.

pub mod billing;
pub mod cli;
pub mod error;
pub mod ids;
pub mod lexical;
pub mod memory;
pub mod numbers;
pub mod order;
pub mod paths;
pub mod plugins;
pub mod relay;
pub mod strmap;
pub mod text;
pub mod tokens;
pub mod tools;
pub mod vault;
pub mod wording;
