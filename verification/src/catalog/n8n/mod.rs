//! Import of n8n workflows.
pub mod javascript;
pub mod code_laws;
pub mod expr;
pub mod mapping_laws;
pub mod node_mapping;
pub mod workflow;
pub mod workflow_laws;
