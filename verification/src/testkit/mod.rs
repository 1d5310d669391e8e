//! Programmable stand-ins for capabilities, and the log of what was called.
pub mod capability;
pub mod glob;
pub mod mocks;
pub mod double;
pub mod sample;
pub mod stand_in_laws;
