//! The state-sync protocol's decision core.
//!
//! Peers ask whether a merkle root was ever recorded, whether a
//! nullifier is spent, or for a summary of the ledger. The responder
//! here turns one request and a read-only view of the state into the
//! response to send back; subscribing to channels, receiving and
//! sending stay outside the library, which keeps this logic total and
//! exactly specified.

use vstd::prelude::*;
use crate::state::State;
use crate::merkle::MerkleNode;
use crate::note::Nullifier;

verus! {

/// A peer's query against the ledger state.
pub enum ConsensusRequest {
    /// Is this root one the tree has ever held?
    MerkleRootKnown { root: Vec<u8> },
    /// Has this nullifier been spent?
    NullifierSpent { nullifier: Vec<u8> },
    /// How many coins and roots does the ledger hold?
    LedgerSummary,
}

/// The answer sent back for one request.
pub enum ConsensusResponse {
    MerkleRootKnown { known: bool },
    NullifierSpent { spent: bool },
    LedgerSummary { coins: u64, roots: u64 },
}

/// Answers state-sync queries from a read-only state view.
pub struct ProtocolSyncConsensus {}

impl ProtocolSyncConsensus {
    /// Sets the responder up; subscriptions and channels live with the
    /// caller.
    pub fn init() -> (r: ProtocolSyncConsensus) {
        ProtocolSyncConsensus {  }
    }

    /// Computes the response to one request: root and nullifier queries
    /// answer exactly what the state records, and the summary reports
    /// the exact ledger sizes.
    pub fn handle_receive_request(&self, state: &State, req: &ConsensusRequest) -> (r:
        ConsensusResponse)
        requires
            state.wf(),
            state.leaves().len() <= u64::MAX,
            state.roots().len() <= u64::MAX,
        ensures
            match *req {
                ConsensusRequest::MerkleRootKnown { ref root } => r matches
                    ConsensusResponse::MerkleRootKnown { known } && (root@.len() == 32 ==> known
                    == state.roots().contains(root@)) && (root@.len() != 32 ==> known == false),
                ConsensusRequest::NullifierSpent { ref nullifier } => r matches
                    ConsensusResponse::NullifierSpent { spent } && spent
                    == state.nullifiers().contains(nullifier@),
                ConsensusRequest::LedgerSummary => r matches ConsensusResponse::LedgerSummary {
                    coins,
                    roots,
                } && coins == state.leaves().len() && roots == state.roots().len(),
            },
    {
        match req {
            ConsensusRequest::MerkleRootKnown { root } => {
                let node = MerkleNode::new(crate::bytes::clone_bytes(root));
                let known = match node {
                    Some(n) => state.is_valid_merkle(&n),
                    None => false,
                };
                ConsensusResponse::MerkleRootKnown { known }
            },
            ConsensusRequest::NullifierSpent { nullifier } => {
                let n = Nullifier { repr: crate::bytes::clone_bytes(nullifier) };
                ConsensusResponse::NullifierSpent { spent: state.nullifier_exists(&n) }
            },
            ConsensusRequest::LedgerSummary => ConsensusResponse::LedgerSummary {
                coins: state.coin_count(),
                roots: state.root_count(),
            },
        }
    }
}

} // verus!
