//! Host capabilities: the plain values that pass between a node and the host.
pub mod agent;
pub mod mock_schema_aware;
