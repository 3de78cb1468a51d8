//! Plain data carried between the supervisor and its callers.

use vstd::prelude::*;

verus! {

/// The two ports a node binds, read from its listen addresses.
#[derive(Debug, Clone, Copy, PartialEq, Eq, Structural)]
pub struct NodeConfig {
    pub server_port: u16,
    pub swarm_port: u16,
}

/// One node as presented to a caller listing nodes.
#[derive(Debug)]
pub struct NodeInfo {
    pub name: String,
    pub is_running: bool,
    pub run_on_startup: bool,
    pub node_ports: NodeConfig,
}

/// Outcome envelope a front end renders: success flag, human-readable
/// message, optional payload.
#[derive(Debug)]
pub struct OperationResult<T> {
    pub success: bool,
    pub message: String,
    pub data: Option<T>,
}

} // verus!
