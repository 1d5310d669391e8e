//! Workflow graphs that people and models write, and the loop that plans, runs
//! and judges attempts at a goal with them.
//!
//! - [`model`] and [`validate`] say what a graph is and when one is sound;
//!   [`walk`] follows its edges, and [`lanes`] those between a scatter and its
//!   gather; [`literals`] says what an agent has to have written out.
//! - [`nodes`] decides what the nodes of a graph do; [`caps`] holds what passes
//!   between a node and its host.
//! - [`catalog`] holds the contracts of the node kinds, the questions a host
//!   asks before it saves a graph, and the import of n8n workflows.
//! - [`preflight`] and [`workdir`] refuse what could not work, or must not.
//! - [`adaptive`] is the loop: it recalls, chooses or writes a graph, closes
//!   the attempt and keeps the ledger.
//! - [`testkit`] stands in for a host.
//!
//! Nothing here performs input or output. Where a host has to act, a step says
//! what to do, and the next function takes what came of it.

pub mod adaptive;
pub mod caps;
pub mod catalog;
pub mod data;
pub mod error;
pub mod evidence;
pub mod json;
pub mod json_text;
pub mod lanes;
pub mod literal_laws;
pub mod literals;
pub mod model;
pub mod naming_laws;
pub mod nodes;
pub mod preflight;
pub mod preflight_laws;
pub mod store;
pub mod testkit;
pub mod text;
pub mod text_laws;
pub mod validate;
pub mod validate_laws;
pub mod walk;
pub mod workdir;
pub mod workdir_laws;
