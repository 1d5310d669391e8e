//! The stored model: what a record of a run keeps.
pub mod transcript;
