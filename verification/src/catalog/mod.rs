//! What a host asks of a graph before it saves or runs it, and how foreign
//! workflows become graphs.
pub mod contracts;
pub mod graph_policy;
pub mod n8n;
pub mod policy_laws;
