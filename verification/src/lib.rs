//! Vanity key search: byte patterns over public keys, batch targets,
//! 32-bit-immediate segment analysis and the bookkeeping of a search run.

pub mod assembly;
pub mod batch;
pub mod coordinator;
pub mod keys;
pub mod parse;
pub mod pattern;
pub mod report;
pub mod search;
pub mod segment;
pub mod text;
pub mod worker;
