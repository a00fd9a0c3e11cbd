//! LLDP neighbor reporting: the agent-side cache that decides when a snapshot
//! is sent, and the server-side comparison that decides when stored neighbors
//! are rewritten.

pub mod types;
pub mod neighbor_set;
pub mod report;
