use vstd::prelude::*;

pub mod deploy;
pub mod parsers;
pub mod registry;

verus! {

/// Maximum amount of motes that a deployment is allowed to spend on gas fees.
pub const MAX_GAS_FEE_PAYMENT_AMOUNT: u64 = 10_000_000_000_000;

/// Run state of a node or sidecar process, as reported by the control plane.
/// A parsed value is a point-in-time snapshot, not a live status.
#[derive(Debug, PartialEq, Eq, Clone, Copy, Structural)]
pub enum NodeState {
    Running,
    Stopped,
}

/// The four ports that every node reports: protocol, binary, REST and
/// event-stream (SSE).
#[derive(Debug, PartialEq, Eq, Clone, Copy, Structural)]
pub struct CasperNodePorts {
    pub protocol_port: u16,
    pub binary_port: u16,
    pub rest_port: u16,
    pub sse_port: u16,
}

/// The three ports that every sidecar reports: node-client, RPC and
/// speculative execution.
#[derive(Debug, PartialEq, Eq, Clone, Copy, Structural)]
pub struct CasperSidecarPorts {
    pub node_client_port: u16,
    pub rpc_port: u16,
    pub speculative_exec_port: u16,
}

/// A fully resolved node descriptor: identity, group, run state and ports.
/// Built once during startup by joining topology records with port records;
/// never mutated afterwards.
#[derive(Debug, PartialEq, Eq, Clone, Copy, Structural)]
pub struct CasperNode {
    pub id: u8,
    pub validator_group_id: u8,
    pub state: NodeState,
    pub port: CasperNodePorts,
}

/// A fully resolved sidecar descriptor, the counterpart of [`CasperNode`].
#[derive(Debug, PartialEq, Eq, Clone, Copy, Structural)]
pub struct CasperSidecar {
    pub id: u8,
    pub validator_group_id: u8,
    pub state: NodeState,
    pub port: CasperSidecarPorts,
}

/// The root aggregate of a running test network: the working directory it
/// lives in and the resolved node and sidecar descriptors, in the order the
/// control plane reported them. The collections are never resized after
/// startup completes.
#[derive(Debug)]
pub struct CCTLNetwork {
    pub working_dir: String,
    pub casper_nodes: Vec<CasperNode>,
    pub casper_sidecars: Vec<CasperSidecar>,
}

/// One contract that the caller asks to have deployed: the named key under
/// which the contract hash will be registered on chain, and the path of the
/// contract bytecode. Optional runtime arguments are handed to the RPC layer
/// by the caller and play no part in the logic here.
#[derive(Debug, Clone, PartialEq, Eq)]
pub struct DeployableContract {
    /// This is the named key under which the contract hash is located.
    pub hash_name: String,
    pub path: String,
}

/// Verbosity level requested from the RPC client.
#[derive(Debug, PartialEq, Eq, Clone, Copy, Structural)]
pub enum RpcVerbosity {
    Low,
    Medium,
    High,
}

/// Selects the RPC client verbosity from the two relevant log-level switches:
/// trace wins over debug, and everything else is quiet.
pub fn casper_client_verbosity(trace_enabled: bool, debug_enabled: bool) -> (v: RpcVerbosity)
    ensures
        trace_enabled ==> v == RpcVerbosity::High,
        !trace_enabled && debug_enabled ==> v == RpcVerbosity::Medium,
        !trace_enabled && !debug_enabled ==> v == RpcVerbosity::Low,
{
    if trace_enabled {
        RpcVerbosity::High
    } else if debug_enabled {
        RpcVerbosity::Medium
    } else {
        RpcVerbosity::Low
    }
}

} // verus!
