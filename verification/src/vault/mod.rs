//! The vault: notes, their links and properties, and writing them back.
pub mod double;
pub mod embed;
pub mod features;
pub mod get;
pub mod graph;
pub mod history;
pub mod index;
pub mod json;
pub mod parse;
pub mod properties;
pub mod reading;
pub mod rename;
pub mod retarget;
pub mod search;
pub mod snippets;
pub mod suggest;
pub mod tasks;
pub mod template;
pub mod types;
pub mod value;
pub mod write;
pub mod writer;
