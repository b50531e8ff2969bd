//! Per-node output records, one per node per recorded iteration.

use vstd::prelude::*;

use crate::node::{kind_str, ComputeNode, Node, NodeKind};
use crate::vote::{NoTx, Vote};

verus! {

/// The solver-specific part of a node's output record; nodes without solver
/// state record nothing.
#[derive(Debug, Clone, Copy, PartialEq, Eq)]
pub enum NodeState {
    Claro { evidence: u64, evidence_accumulated: u64, confidence: u64 },
    Snowball { consecutive_success: u64 },
    Empty,
}

/// One output record: which node, when, its published vote (0 absent,
/// 1 yes, 2 no), its behaviour tag and its solver state.
pub struct OutData {
    pub id: u64,
    pub iteration: u64,
    pub round: u64,
    pub vote: u8,
    pub node_type: String,
    pub state: NodeState,
}

/// The encoding of a published vote in output records.
pub open spec fn vote_code(vote: Option<Vote<NoTx>>) -> u8 {
    match vote {
        None => 0,
        Some(Vote::Yes(_)) => 1,
        Some(Vote::No(_)) => 2,
    }
}

/// A node's solver state as recorded in its output record.
pub open spec fn node_state_record(node: Node) -> NodeState {
    match node {
        Node::Claro(n) => NodeState::Claro {
            evidence: n.solver.state.evidence,
            evidence_accumulated: n.solver.state.evidence_accumulated,
            confidence: n.solver.state.confidence,
        },
        Node::Snowball(n) => NodeState::Snowball {
            consecutive_success: n.solver.consecutive_success,
        },
        _ => NodeState::Empty,
    }
}

/// Whether one output record describes this node at this point of the run.
pub open spec fn records_node(record: OutData, node: Node, iteration: u64, round: u64) -> bool {
    &&& record.id == node.id_spec() as u64
    &&& record.iteration == iteration
    &&& record.round == round
    &&& record.vote == vote_code(node.decision_spec().to_vote_spec())
    &&& record.node_type@ == kind_str(node.kind_spec())
    &&& record.state == node_state_record(node)
}

/// What a node contributes to the output.
pub trait NodeStateRecord {
    /// The solver-specific state this node records.
    fn get_serialized_state_record(&self) -> NodeState;
}

impl NodeStateRecord for Node {
    fn get_serialized_state_record(&self) -> (r: NodeState)
        ensures
            r == node_state_record(*self),
    {
        match self {
            Node::Claro(n) => NodeState::Claro {
                evidence: n.solver.state.evidence,
                evidence_accumulated: n.solver.state.evidence_accumulated,
                confidence: n.solver.state.confidence,
            },
            Node::Snowball(n) => NodeState::Snowball {
                consecutive_success: n.solver.consecutive_success,
            },
            _ => NodeState::Empty,
        }
    }
}

/// Build the output record for one node at one recorded point of the run.
pub fn record_for_node(node: &Node, iteration: u64, round: u64) -> (r: OutData)
    ensures
        records_node(r, *node, iteration, round),
{
    let vote = match node.vote() {
        None => 0u8,
        Some(Vote::Yes(_)) => 1u8,
        Some(Vote::No(_)) => 2u8,
    };
    OutData {
        id: node.id() as u64,
        iteration,
        round,
        vote,
        node_type: node.type_as_string(),
        state: node.get_serialized_state_record(),
    }
}

} // verus!
