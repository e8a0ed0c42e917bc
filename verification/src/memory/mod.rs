//! What an agent keeps: memories with provenance, ranked and recalled under a
//! token budget, contradictions surfaced.
pub mod conflict;
pub mod filing;
pub mod rank;
pub mod recall;
pub mod remember;
pub mod store;
pub mod types;
