//! Validation core of a privacy-preserving, UTXO-style ledger.
//!
//! The library holds the append-only commitment (Merkle) tree with its
//! incremental witnesses, the nullifier set that prevents double spends,
//! the note and coin model with its commitment and encryption layout, and
//! the verify-then-apply state-transition engine. Networking, persistence
//! and proving-parameter generation live outside the library.

pub mod bytes;
pub mod hash;
pub mod merkle;
pub mod curve;
pub mod note;
pub mod circuit;
pub mod tx;
pub mod state;
pub mod sync;
pub mod rpc;

use vstd::prelude::*;

verus! {

/// Reasons for which a transaction, an append or a query is refused.
#[derive(Clone, Copy, Debug, PartialEq, Eq, Structural)]
pub enum Error {
    /// A zero-knowledge proof did not verify against its public inputs.
    MalformedProof,
    /// A signature over a call's public data did not verify.
    InvalidSignature,
    /// A referenced merkle root was never recorded.
    UnknownRoot,
    /// A spend reuses a nullifier that is already in the set.
    NullifierReused,
    /// Input and output commitment sums differ as curve points.
    ValueImbalance,
    /// The commitment tree already holds its maximal number of leaves.
    TreeCapacityExceeded,
    /// A transaction is unusable as built or received: a build input
    /// outside its scalar or point domain, or wire data that fails the
    /// well-formedness check.
    MalformedTransaction,
    /// A recipient address did not decode to a public key.
    InvalidAddress,
    /// A transfer of zero value was requested.
    InvalidAmount,
    /// The wallet holds no coin to spend.
    NotEnoughValue,
}

} // verus!
