//! Ledger state and the verify-then-apply state-transition engine.
//!
//! The state owns the commitment tree, the history of every root the
//! tree has held, the nullifier set and the accepted cashier keys.
//! `state_transition` checks a transaction read-only, in protocol order:
//! proofs, signatures, roots, nullifiers, value conservation; `apply`
//! commits a validated update atomically, recording the root after every
//! single append so each coin is provable against the root of its own
//! insertion.

use vstd::prelude::*;
use crate::Error;
use crate::bytes::{clone_bytes, bytes_eq};
use crate::curve::{
    is_point, pt_add, commit_spec, PedersenGens, pedersen_commit, sig_valid_spec,
    verify_signature, fr_of_u64, fr_from_u64,
};
use crate::circuit::{
    asset_commit_spec, asset_commit, VerifyingKey, groth16_verify_mint, groth16_verify_spend,
    groth16_ok,
};
use crate::merkle::{CommitmentTree, MerkleNode, seqs_of, two_pow, TREE_DEPTH, root_spec};
use crate::note::{Note, Coin, Nullifier, EncryptedNote, decrypt_note};
use crate::tx::{Transaction, tx_payload, build_payload};

verus! {

/// The effects of one validated transaction.
pub struct StateUpdate {
    pub nullifiers: Vec<Nullifier>,
    pub coins: Vec<Coin>,
    pub enc_notes: Vec<EncryptedNote>,
}

impl StateUpdate {
    pub open spec fn wf(&self) -> bool {
        &&& forall|i: int| 0 <= i < self.nullifiers@.len() ==> (
        #[trigger] self.nullifiers@[i]).wf()
        &&& forall|i: int| 0 <= i < self.coins@.len() ==> (#[trigger] self.coins@[i]).wf()
        &&& forall|i: int| 0 <= i < self.enc_notes@.len() ==> (
        #[trigger] self.enc_notes@[i]).wf()
    }

    /// The nullifier values carried by the update.
    pub open spec fn nullifier_views(&self) -> Seq<Seq<u8>> {
        Seq::new(self.nullifiers@.len(), |i: int| self.nullifiers@[i].repr@)
    }

    /// The coin values carried by the update.
    pub open spec fn coin_views(&self) -> Seq<Seq<u8>> {
        Seq::new(self.coins@.len(), |i: int| self.coins@[i].repr@)
    }
}

/// Whether an update carries exactly a transaction's effects: its spend
/// nullifiers, its output coins and its output ciphertexts, in order.
pub open spec fn update_matches(u: StateUpdate, tx: Transaction) -> bool {
    &&& u.nullifiers@.len() == tx.inputs@.len()
    &&& forall|i: int| 0 <= i < tx.inputs@.len() ==> (#[trigger] u.nullifiers@[i]).repr@
        == tx.inputs@[i].nullifier.repr@
    &&& u.coins@.len() == tx.outputs@.len()
    &&& forall|i: int| 0 <= i < tx.outputs@.len() ==> (#[trigger] u.coins@[i]).repr@
        == tx.outputs@[i].coin.repr@
    &&& u.enc_notes@.len() == tx.outputs@.len()
    &&& forall|i: int| 0 <= i < tx.outputs@.len() ==> (#[trigger] u.enc_notes@[i]).ciphertext@
        == tx.outputs@[i].enc_note.ciphertext@ && u.enc_notes@[i].ephem_public@
        == tx.outputs@[i].enc_note.ephem_public@
}

/// The commitment a clear input stands for: its public value under a
/// zero blinding scalar.
pub open spec fn clear_value_commit(g: PedersenGens, c: crate::tx::ClearInput) -> Seq<u8> {
    commit_spec(g, c.value, fr_of_u64(0))
}

/// The asset commitment a clear input stands for.
pub open spec fn clear_asset_commit(g: PedersenGens, c: crate::tx::ClearInput) -> Seq<u8> {
    asset_commit_spec(g, c.asset_id@, fr_of_u64(0))
}

/// Sum of a non-empty list of commitment points.
pub open spec fn sum_pts(cs: Seq<Seq<u8>>) -> Seq<u8>
    decreases cs.len(),
{
    if cs.len() <= 1 {
        cs[0]
    } else {
        pt_add(sum_pts(cs.drop_last()), cs.last())
    }
}

pub open spec fn all_points(cs: Seq<Seq<u8>>) -> bool {
    forall|i: int| 0 <= i < cs.len() ==> is_point(#[trigger] cs[i])
}

/// Two sides of a conservation equation balance when every commitment
/// decodes, the sides are empty together, and non-empty sides sum to the
/// same curve point.
pub open spec fn balanced_side(lhs: Seq<Seq<u8>>, rhs: Seq<Seq<u8>>) -> bool {
    &&& all_points(lhs)
    &&& all_points(rhs)
    &&& (lhs.len() == 0 <==> rhs.len() == 0)
    &&& (lhs.len() > 0 ==> sum_pts(lhs) == sum_pts(rhs))
}

/// The input-side value commitments: clear inputs first, then spends.
pub open spec fn value_lhs(tx: Transaction, g: PedersenGens) -> Seq<Seq<u8>> {
    Seq::new(tx.clear_inputs@.len(), |i: int| clear_value_commit(g, tx.clear_inputs@[i]))
        + Seq::new(tx.inputs@.len(), |i: int| tx.inputs@[i].value_commit@)
}

pub open spec fn value_rhs(tx: Transaction) -> Seq<Seq<u8>> {
    Seq::new(tx.outputs@.len(), |i: int| tx.outputs@[i].value_commit@)
}

pub open spec fn asset_lhs(tx: Transaction, g: PedersenGens) -> Seq<Seq<u8>> {
    Seq::new(tx.clear_inputs@.len(), |i: int| clear_asset_commit(g, tx.clear_inputs@[i]))
        + Seq::new(tx.inputs@.len(), |i: int| tx.inputs@[i].asset_commit@)
}

pub open spec fn asset_rhs(tx: Transaction) -> Seq<Seq<u8>> {
    Seq::new(tx.outputs@.len(), |i: int| tx.outputs@[i].asset_commit@)
}

/// Clear inputs only balance when their asset ids are canonical
/// scalars: otherwise no curve point stands for them.
pub open spec fn clear_ok(tx: Transaction) -> bool {
    forall|i: int| 0 <= i < tx.clear_inputs@.len() ==> crate::curve::is_fr(
        (#[trigger] tx.clear_inputs@[i]).asset_id@,
    )
}

/// Asset conservation compares count-scaled sums: each asset
/// commitment carries one full multiple of the asset id, so the input
/// sum times the output count must equal the output sum times the
/// input count, as curve points.
pub open spec fn scaled_balanced_side(lhs: Seq<Seq<u8>>, rhs: Seq<Seq<u8>>) -> bool {
    &&& all_points(lhs)
    &&& all_points(rhs)
    &&& (lhs.len() == 0 <==> rhs.len() == 0)
    &&& (lhs.len() > 0 ==> crate::curve::pt_mul(fr_of_u64(rhs.len() as u64), sum_pts(lhs))
        == crate::curve::pt_mul(fr_of_u64(lhs.len() as u64), sum_pts(rhs)))
}

/// Value conservation: the value commitment sums agree between inputs
/// and outputs, and the asset commitment sums agree after count
/// scaling, as curve points.
pub open spec fn balanced(tx: Transaction, g: PedersenGens) -> bool {
    &&& clear_ok(tx)
    &&& balanced_side(value_lhs(tx, g), value_rhs(tx))
    &&& scaled_balanced_side(asset_lhs(tx, g), asset_rhs(tx))
}

/// Every signature covers the transaction's public payload: each clear
/// input under a recorded cashier key, each spend under its own key.
pub open spec fn sigs_ok(tx: Transaction, cashiers: Seq<Seq<u8>>) -> bool {
    &&& forall|i: int| 0 <= i < tx.clear_inputs@.len() ==> cashiers.contains(
        (#[trigger] tx.clear_inputs@[i]).signature_public@,
    ) && sig_valid_spec(
        tx.clear_inputs@[i].signature_public@,
        tx_payload(tx),
        tx.clear_inputs@[i].signature,
    )
    &&& forall|i: int| 0 <= i < tx.inputs@.len() ==> sig_valid_spec(
        (#[trigger] tx.inputs@[i]).signature_public@,
        tx_payload(tx),
        tx.inputs@[i].signature,
    )
}

/// Every referenced merkle root was recorded at some time.
pub open spec fn roots_ok(tx: Transaction, roots: Seq<Seq<u8>>) -> bool {
    forall|i: int| 0 <= i < tx.inputs@.len() ==> roots.contains(
        (#[trigger] tx.inputs@[i]).merkle_root@,
    )
}

/// No spend reuses a nullifier that is in the set, and no two spends of
/// the transaction share one.
pub open spec fn no_reuse(tx: Transaction, nulls: Seq<Seq<u8>>) -> bool {
    &&& forall|i: int| 0 <= i < tx.inputs@.len() ==> !nulls.contains(
        (#[trigger] tx.inputs@[i]).nullifier.repr@,
    )
    &&& forall|i: int, j: int| 0 <= i < j < tx.inputs@.len()
        ==> (#[trigger] tx.inputs@[i]).nullifier.repr@ != (
    #[trigger] tx.inputs@[j]).nullifier.repr@
}

/// The proof verifier's combined answer for a transaction: every
/// output's mint proof and every spend's proof accepted, under the
/// named deterministic Groth16 verdict.
pub open spec fn proofs_ok_spec(tx: Transaction, mint_vk: Seq<u8>, spend_vk: Seq<u8>) -> bool {
    &&& forall|i: int| 0 <= i < tx.outputs@.len() ==> groth16_ok(
        mint_vk,
        (#[trigger] tx.outputs@[i]).proof@,
        tx.outputs@[i].value_commit@,
        tx.outputs@[i].asset_commit@,
        tx.outputs@[i].coin.repr@,
    )
    &&& forall|i: int| 0 <= i < tx.inputs@.len() ==> groth16_ok(
        spend_vk,
        (#[trigger] tx.inputs@[i]).proof@,
        tx.inputs@[i].value_commit@,
        tx.inputs@[i].asset_commit@,
        tx.inputs@[i].nullifier.repr@ + tx.inputs@[i].merkle_root@,
    )
}

/// The verdict of the protocol checks in their fixed order, given the
/// proof verifier's combined answer `proofs_ok`: proofs, signatures,
/// roots, nullifiers, conservation.
pub open spec fn tx_verdict(
    tx: Transaction,
    proofs_ok: bool,
    g: PedersenGens,
    cashiers: Seq<Seq<u8>>,
    roots: Seq<Seq<u8>>,
    nulls: Seq<Seq<u8>>,
) -> Option<Error> {
    if !proofs_ok {
        Some(Error::MalformedProof)
    } else if !sigs_ok(tx, cashiers) {
        Some(Error::InvalidSignature)
    } else if !roots_ok(tx, roots) {
        Some(Error::UnknownRoot)
    } else if !no_reuse(tx, nulls) {
        Some(Error::NullifierReused)
    } else if !balanced(tx, g) {
        Some(Error::ValueImbalance)
    } else {
        None
    }
}

/// The ledger state: tree, root history, nullifier set, accepted
/// cashier keys, the Pedersen bases and the two verifying keys.
pub struct State {
    tree: CommitmentTree,
    merkle_roots: Vec<Vec<u8>>,
    nullifiers: Vec<Vec<u8>>,
    cashier_keys: Vec<Vec<u8>>,
    gens: PedersenGens,
    mint_pvk: VerifyingKey,
    spend_pvk: VerifyingKey,
}

impl State {
    /// The leaves of the commitment tree, oldest first.
    pub closed spec fn leaves(&self) -> Seq<Seq<u8>> {
        self.tree.leaves()
    }

    /// Every root the tree has held, oldest first.
    pub closed spec fn roots(&self) -> Seq<Seq<u8>> {
        seqs_of(self.merkle_roots@)
    }

    /// The nullifiers of every spent coin, in insertion order.
    pub closed spec fn nullifiers(&self) -> Seq<Seq<u8>> {
        seqs_of(self.nullifiers@)
    }

    /// The accepted cashier public keys.
    pub closed spec fn cashiers(&self) -> Seq<Seq<u8>> {
        seqs_of(self.cashier_keys@)
    }

    /// The Pedersen bases in use.
    pub closed spec fn gens_spec(&self) -> PedersenGens {
        self.gens
    }

    pub closed spec fn wf(&self) -> bool {
        &&& self.tree.wf()
        &&& self.gens.wf()
    }

    /// The Pedersen bases in use.
    pub fn gens_ref(&self) -> (r: &PedersenGens)
        ensures
            *r == self.gens_spec(),
    {
        &self.gens
    }

    /// A fresh state: empty tree (its root recorded as the first
    /// historical root), no nullifiers.
    pub fn new(
        gens: PedersenGens,
        mint_pvk: VerifyingKey,
        spend_pvk: VerifyingKey,
        cashier_keys: Vec<Vec<u8>>,
    ) -> (r: State)
        requires
            gens.wf(),
        ensures
            r.wf(),
            r.leaves() == Seq::<Seq<u8>>::empty(),
            r.nullifiers() == Seq::<Seq<u8>>::empty(),
            r.roots() == seq![root_spec(TREE_DEPTH as nat, Seq::<Seq<u8>>::empty())],
            r.cashiers() == seqs_of(cashier_keys@),
            r.gens_spec() == gens,
            r.spec_mint_pvk() == mint_pvk.bytes_view(),
            r.spec_spend_pvk() == spend_pvk.bytes_view(),
    {
        let tree = CommitmentTree::empty();
        let root = tree.root();
        let mut merkle_roots: Vec<Vec<u8>> = Vec::new();
        merkle_roots.push(root.to_bytes());
        let r = State {
            tree,
            merkle_roots,
            nullifiers: Vec::new(),
            cashier_keys,
            gens,
            mint_pvk,
            spend_pvk,
        };
        proof {
            assert(r.roots() =~= seq![root_spec(TREE_DEPTH as nat, Seq::<Seq<u8>>::empty())]);
            assert(r.nullifiers() =~= Seq::<Seq<u8>>::empty());
        }
        r
    }

    /// Whether a root was ever recorded; peers query this before
    /// accepting a proof against it.
    pub fn is_valid_merkle(&self, merkle_root: &MerkleNode) -> (r: bool)
        ensures
            r == self.roots().contains(merkle_root.value()),
    {
        let b = merkle_root.to_bytes();
        contains_bytes(&self.merkle_roots, &b)
    }

    /// Whether a nullifier is already in the set: the double-spend test.
    pub fn nullifier_exists(&self, nullifier: &Nullifier) -> (r: bool)
        ensures
            r == self.nullifiers().contains(nullifier.repr@),
    {
        contains_bytes(&self.nullifiers, &nullifier.repr)
    }

    /// Whether a key is an accepted cashier key.
    pub fn is_valid_cashier_public_key(&self, public: &Vec<u8>) -> (r: bool)
        ensures
            r == self.cashiers().contains(public@),
    {
        contains_bytes(&self.cashier_keys, public)
    }

    /// The serialized bytes of the mint circuit's verifying key.
    pub closed spec fn spec_mint_pvk(&self) -> Seq<u8> {
        self.mint_pvk.bytes_view()
    }

    /// The serialized bytes of the spend circuit's verifying key.
    pub closed spec fn spec_spend_pvk(&self) -> Seq<u8> {
        self.spend_pvk.bytes_view()
    }

    /// The mint circuit's verifying key.
    pub fn mint_pvk(&self) -> (r: &VerifyingKey)
        ensures
            r.bytes_view() == self.spec_mint_pvk(),
    {
        &self.mint_pvk
    }

    /// The spend circuit's verifying key.
    pub fn spend_pvk(&self) -> (r: &VerifyingKey)
        ensures
            r.bytes_view() == self.spec_spend_pvk(),
    {
        &self.spend_pvk
    }

    /// Read-only access to the commitment tree, for witness creation.
    pub fn tree(&self) -> (r: &CommitmentTree)
        requires
            self.wf(),
        ensures
            r.wf(),
            r.leaves() == self.leaves(),
    {
        &self.tree
    }

    /// The number of coins in the tree.
    pub fn coin_count(&self) -> (r: u64)
        requires
            self.wf(),
        ensures
            r == self.leaves().len(),
    {
        self.tree.len()
    }

    /// The number of recorded roots.
    pub fn root_count(&self) -> (r: u64)
        requires
            self.roots().len() <= u64::MAX,
        ensures
            r == self.roots().len(),
    {
        self.merkle_roots.len() as u64
    }

    /// Tries to decrypt an incoming note ciphertext with a wallet
    /// secret; `None` when the ciphertext is not addressed to it.
    pub fn try_decrypt_note(&self, secret: &Vec<u8>, ciphertext: &EncryptedNote) -> (r: Option<
        Note,
    >)
        requires
            secret@.len() == 32,
            ciphertext.wf(),
        ensures
            r is Some <==> (crate::curve::is_fr(secret@) && crate::curve::is_point(
                ciphertext.ephem_public@,
            ) && crate::note::decipher_of(
                ciphertext.ciphertext@,
                crate::note::note_key(
                    crate::curve::pt_mul(secret@, ciphertext.ephem_public@),
                ),
            ) is Some),
            r matches Some(n) ==> n.wf() && crate::note::decipher_of(
                ciphertext.ciphertext@,
                crate::note::note_key(
                    crate::curve::pt_mul(secret@, ciphertext.ephem_public@),
                ),
            ) == Some(crate::note::note_bytes(n)),
    {
        decrypt_note(secret, ciphertext)
    }

    /// Commits a validated update: all nullifiers enter the set, each
    /// coin is appended and the root recorded immediately, so the coin
    /// is provable against the root as of its own insertion. Fails, with
    /// no effect at all, exactly when the coins would not fit.
    #[verifier::loop_isolation(false)]
    pub fn apply(&mut self, update: &StateUpdate) -> (r: Result<(), Error>)
        requires
            old(self).wf(),
            update.wf(),
        ensures
            final(self).wf(),
            final(self).cashiers() == old(self).cashiers(),
            final(self).gens_spec() == old(self).gens_spec(),
            final(self).spec_mint_pvk() == old(self).spec_mint_pvk(),
            final(self).spec_spend_pvk() == old(self).spec_spend_pvk(),
            match r {
                Ok(()) => {
                    &&& old(self).leaves().len() + update.coins@.len() <= two_pow(
                        TREE_DEPTH as nat,
                    )
                    &&& final(self).nullifiers() == old(self).nullifiers()
                        + update.nullifier_views()
                    &&& final(self).leaves() == old(self).leaves() + update.coin_views()
                    &&& final(self).roots() == old(self).roots() + Seq::new(
                        update.coins@.len(),
                        |i: int| root_spec(
                            TREE_DEPTH as nat,
                            old(self).leaves() + update.coin_views().take(i + 1),
                        ),
                    )
                },
                Err(e) => {
                    &&& e == Error::TreeCapacityExceeded
                    &&& old(self).leaves().len() + update.coins@.len() > two_pow(
                        TREE_DEPTH as nat,
                    )
                    &&& *final(self) == *old(self)
                },
            },
    {
        proof {
            crate::merkle::lemma_two_pow_values();
            self.tree.lemma_len_bound();
        }
        let n: u64 = self.tree.len();
        let k: usize = update.coins.len();
        if k as u64 > crate::merkle::TREE_CAPACITY - n {
            return Err(Error::TreeCapacityExceeded);
        }
        let ghost old_nulls = self.nullifiers();
        let mut i: usize = 0;
        while i < update.nullifiers.len()
            invariant
                i <= update.nullifiers@.len(),
                update.wf(),
                self.nullifiers() == old_nulls + update.nullifier_views().take(i as int),
                self.tree == old(self).tree,
                self.merkle_roots == old(self).merkle_roots,
                self.cashier_keys == old(self).cashier_keys,
                self.gens == old(self).gens,
                self.mint_pvk == old(self).mint_pvk,
                self.spend_pvk == old(self).spend_pvk,
            decreases update.nullifiers@.len() - i,
        {
            let ghost pre = self.nullifiers@;
            self.nullifiers.push(clone_bytes(&update.nullifiers[i].repr));
            proof {
                assert(seqs_of(self.nullifiers@) =~= seqs_of(pre).push(
                    update.nullifiers@[i as int].repr@,
                ));
                assert(seqs_of(pre).push(update.nullifiers@[i as int].repr@) =~= old_nulls
                    + update.nullifier_views().take(i + 1));
            }
            i += 1;
        }
        proof {
            assert(update.nullifier_views().take(update.nullifiers@.len() as int)
                =~= update.nullifier_views());
        }
        let ghost old_leaves = old(self).leaves();
        let ghost old_roots = old(self).roots();
        let mut j: usize = 0;
        while j < k
            invariant
                j <= k,
                k == update.coins@.len(),
                update.wf(),
                self.wf(),
                old_leaves.len() + k <= two_pow(TREE_DEPTH as nat),
                self.leaves() == old_leaves + update.coin_views().take(j as int),
                self.roots() == old_roots + Seq::new(
                    j as nat,
                    |i: int| root_spec(
                        TREE_DEPTH as nat,
                        old_leaves + update.coin_views().take(i + 1),
                    ),
                ),
                self.nullifiers() == old(self).nullifiers() + update.nullifier_views(),
                self.cashier_keys == old(self).cashier_keys,
                self.gens == old(self).gens,
                self.mint_pvk == old(self).mint_pvk,
                self.spend_pvk == old(self).spend_pvk,
            decreases k - j,
        {
            let node = update.coins[j].to_merkle_node();
            let res = self.tree.append(&node);
            proof {
                assert(res is Ok);
            }
            match res {
                Ok(()) => (),
                Err(_) => {
                    proof {
                        assert(false);
                    }
                },
            };
            let root = self.tree.root();
            let ghost pre = self.merkle_roots@;
            self.merkle_roots.push(root.to_bytes());
            proof {
                assert(self.leaves() =~= old_leaves + update.coin_views().take(j + 1));
                assert(seqs_of(self.merkle_roots@) =~= seqs_of(pre).push(root.value()));
                assert(seqs_of(pre).push(root.value()) =~= old_roots + Seq::new(
                    (j + 1) as nat,
                    |i: int| root_spec(
                        TREE_DEPTH as nat,
                        old_leaves + update.coin_views().take(i + 1),
                    ),
                ));
            }
            j += 1;
        }
        proof {
            assert(update.coin_views().take(k as int) =~= update.coin_views());
        }
        Ok(())
    }
}

/// Linear search for a byte string among byte vectors.
fn contains_bytes(hay: &Vec<Vec<u8>>, needle: &Vec<u8>) -> (r: bool)
    ensures
        r == seqs_of(hay@).contains(needle@),
{
    let mut i: usize = 0;
    while i < hay.len()
        invariant
            i <= hay@.len(),
            forall|j: int| 0 <= j < i ==> (#[trigger] hay@[j])@ != needle@,
        decreases hay@.len() - i,
    {
        if bytes_eq(&hay[i], needle) {
            proof {
                assert(seqs_of(hay@)[i as int] == needle@);
            }
            return true;
        }
        i += 1;
    }
    proof {
        assert forall|j: int| 0 <= j < seqs_of(hay@).len() implies seqs_of(hay@)[j] != needle@
        by {
            assert(hay@[j]@ != needle@);
        }
    }
    false
}

/// Folds a commitment list into its sum; `None` exactly when the list is
/// empty or some entry is not a canonical point.
fn sum_commits(cs: &Vec<Vec<u8>>) -> (r: Option<Vec<u8>>)
    requires
        forall|i: int| 0 <= i < cs@.len() ==> (#[trigger] cs@[i])@.len() == 32,
    ensures
        r is Some <==> (cs@.len() > 0 && all_points(seqs_of(cs@))),
        r matches Some(s) ==> s@ == sum_pts(seqs_of(cs@)) && is_point(s@) && s@.len() == 32,
{
    if cs.len() == 0 {
        return None;
    }
    let mut acc = match crate::curve::pt_add_exec(&cs[0], &cs[0]) {
        Some(_) => clone_bytes(&cs[0]),
        None => {
            proof {
                assert(!is_point(seqs_of(cs@)[0]));
            }
            return None;
        },
    };
    proof {
        assert(seqs_of(cs@).take(1) =~= seq![seqs_of(cs@)[0]]);
        assert(sum_pts(seqs_of(cs@).take(1)) == seqs_of(cs@)[0]);
    }
    let mut i: usize = 1;
    while i < cs.len()
        invariant
            1 <= i <= cs@.len(),
            forall|k: int| 0 <= k < cs@.len() ==> (#[trigger] cs@[k])@.len() == 32,
            all_points(seqs_of(cs@).take(i as int)),
            acc@ == sum_pts(seqs_of(cs@).take(i as int)),
            is_point(acc@),
            acc@.len() == 32,
        decreases cs@.len() - i,
    {
        acc = match crate::curve::pt_add_exec(&acc, &cs[i]) {
            Some(s) => s,
            None => {
                proof {
                    assert(!is_point(seqs_of(cs@)[i as int]));
                }
                return None;
            },
        };
        proof {
            let pre = seqs_of(cs@).take(i as int);
            let cur = seqs_of(cs@).take(i + 1);
            assert(cur.drop_last() =~= pre);
            assert(cur.last() == seqs_of(cs@)[i as int]);
        }
        i += 1;
    }
    proof {
        assert(seqs_of(cs@).take(cs@.len() as int) =~= seqs_of(cs@));
    }
    Some(acc)
}

/// Checks one conservation equation side pair.
fn check_balance_side(lhs: &Vec<Vec<u8>>, rhs: &Vec<Vec<u8>>) -> (r: bool)
    requires
        forall|i: int| 0 <= i < lhs@.len() ==> (#[trigger] lhs@[i])@.len() == 32,
        forall|i: int| 0 <= i < rhs@.len() ==> (#[trigger] rhs@[i])@.len() == 32,
    ensures
        r == balanced_side(seqs_of(lhs@), seqs_of(rhs@)),
{
    if lhs.len() == 0 && rhs.len() == 0 {
        return true;
    }
    if lhs.len() == 0 || rhs.len() == 0 {
        return false;
    }
    let ls = match sum_commits(lhs) {
        Some(s) => s,
        None => {
            return false;
        },
    };
    let rs = match sum_commits(rhs) {
        Some(s) => s,
        None => {
            return false;
        },
    };
    bytes_eq(&ls, &rs)
}

/// Checks the count-scaled asset conservation equation.
fn check_scaled_balance_side(lhs: &Vec<Vec<u8>>, rhs: &Vec<Vec<u8>>) -> (r: bool)
    requires
        forall|i: int| 0 <= i < lhs@.len() ==> (#[trigger] lhs@[i])@.len() == 32,
        forall|i: int| 0 <= i < rhs@.len() ==> (#[trigger] rhs@[i])@.len() == 32,
        lhs@.len() <= u64::MAX,
        rhs@.len() <= u64::MAX,
    ensures
        r == scaled_balanced_side(seqs_of(lhs@), seqs_of(rhs@)),
{
    if lhs.len() == 0 && rhs.len() == 0 {
        return true;
    }
    if lhs.len() == 0 || rhs.len() == 0 {
        return false;
    }
    let ls = match sum_commits(lhs) {
        Some(s) => s,
        None => {
            return false;
        },
    };
    let rs = match sum_commits(rhs) {
        Some(s) => s,
        None => {
            return false;
        },
    };
    let nl = fr_from_u64(lhs.len() as u64);
    let nr = fr_from_u64(rhs.len() as u64);
    let left = match crate::curve::pt_mul_exec(&nr, &ls) {
        Some(p) => p,
        None => {
            proof {
                assert(false);
            }
            return false;
        },
    };
    let right = match crate::curve::pt_mul_exec(&nl, &rs) {
        Some(p) => p,
        None => {
            proof {
                assert(false);
            }
            return false;
        },
    };
    bytes_eq(&left, &right)
}

/// Verifies a transaction against the current state, without touching
/// it: proofs first, then signatures, recorded roots, nullifier
/// freshness (against the set and within the transaction), and value
/// conservation. The returned verdict is exactly `tx_verdict` for the
/// verifier's answer on the proof blobs, which the named deterministic
/// Groth16 verdict fixes as a function of the keys and the transaction.
#[verifier::loop_isolation(false)]
pub fn state_transition(state: &State, tx: &Transaction) -> (r: Result<StateUpdate, Error>)
    requires
        state.wf(),
        tx.wf(),
    ensures
        match tx_verdict(
            *tx,
            proofs_ok_spec(*tx, state.spec_mint_pvk(), state.spec_spend_pvk()),
            state.gens_spec(),
            state.cashiers(),
            state.roots(),
            state.nullifiers(),
        ) {
            None => r matches Ok(u) && update_matches(u, *tx) && u.wf(),
            Some(e) => r == Result::<StateUpdate, Error>::Err(e),
        },
{
    let ghost g = state.gens_spec();
    let ghost cashiers = state.cashiers();
    let ghost roots = state.roots();
    let ghost nulls = state.nullifiers();
    let ghost pok = proofs_ok_spec(*tx, state.spec_mint_pvk(), state.spec_spend_pvk());

    // Step 1: every proof blob must verify against its public inputs.
    let mut i: usize = 0;
    while i < tx.outputs.len()
        invariant
            state.wf(),
            tx.wf(),
            i <= tx.outputs@.len(),
            forall|j: int| 0 <= j < i ==> groth16_ok(
                state.spec_mint_pvk(),
                (#[trigger] tx.outputs@[j]).proof@,
                tx.outputs@[j].value_commit@,
                tx.outputs@[j].asset_commit@,
                tx.outputs@[j].coin.repr@,
            ),
        decreases tx.outputs@.len() - i,
    {
        let o = &tx.outputs[i];
        if !groth16_verify_mint(
            &state.mint_pvk,
            &o.proof,
            &o.value_commit,
            &o.asset_commit,
            &o.coin.repr,
        ) {
            proof {
                if pok {
                    assert(groth16_ok(
                        state.spec_mint_pvk(),
                        tx.outputs@[i as int].proof@,
                        tx.outputs@[i as int].value_commit@,
                        tx.outputs@[i as int].asset_commit@,
                        tx.outputs@[i as int].coin.repr@,
                    ));
                }
                assert(!pok);
                assert(tx_verdict(*tx, pok, g, cashiers, roots, nulls) == Some(
                    Error::MalformedProof,
                ));
            }
            return Err(Error::MalformedProof);
        }
        i += 1;
    }
    let mut i: usize = 0;
    while i < tx.inputs.len()
        invariant
            state.wf(),
            tx.wf(),
            i <= tx.inputs@.len(),
            forall|j: int| 0 <= j < i ==> groth16_ok(
                state.spec_spend_pvk(),
                (#[trigger] tx.inputs@[j]).proof@,
                tx.inputs@[j].value_commit@,
                tx.inputs@[j].asset_commit@,
                tx.inputs@[j].nullifier.repr@ + tx.inputs@[j].merkle_root@,
            ),
        decreases tx.inputs@.len() - i,
    {
        let s = &tx.inputs[i];
        if !groth16_verify_spend(
            &state.spend_pvk,
            &s.proof,
            &s.value_commit,
            &s.asset_commit,
            &s.nullifier.repr,
            &s.merkle_root,
        ) {
            proof {
                if pok {
                    assert(groth16_ok(
                        state.spec_spend_pvk(),
                        tx.inputs@[i as int].proof@,
                        tx.inputs@[i as int].value_commit@,
                        tx.inputs@[i as int].asset_commit@,
                        tx.inputs@[i as int].nullifier.repr@
                            + tx.inputs@[i as int].merkle_root@,
                    ));
                }
                assert(!pok);
                assert(tx_verdict(*tx, pok, g, cashiers, roots, nulls) == Some(
                    Error::MalformedProof,
                ));
            }
            return Err(Error::MalformedProof);
        }
        i += 1;
    }
    proof {
        assert(pok);
    }

    // Step 2: signatures over the public payload.
    let payload = build_payload(tx);
    let mut i: usize = 0;
    while i < tx.clear_inputs.len()
        invariant
            state.wf(),
            tx.wf(),
            i <= tx.clear_inputs@.len(),
            payload@ == tx_payload(*tx),
            forall|j: int| 0 <= j < i ==> cashiers.contains(
                (#[trigger] tx.clear_inputs@[j]).signature_public@,
            ) && sig_valid_spec(
                tx.clear_inputs@[j].signature_public@,
                tx_payload(*tx),
                tx.clear_inputs@[j].signature,
            ),
        decreases tx.clear_inputs@.len() - i,
    {
        let c = &tx.clear_inputs[i];
        proof {
            assert(*c == tx.clear_inputs@[i as int]);
        }
        if !state.is_valid_cashier_public_key(&c.signature_public) {
            proof {
                if sigs_ok(*tx, cashiers) {
                    assert(cashiers.contains(tx.clear_inputs@[i as int].signature_public@));
                }
                assert(!sigs_ok(*tx, cashiers));
                assert(tx_verdict(*tx, true, g, cashiers, roots, nulls) == Some(
                    Error::InvalidSignature,
                ));
            }
            return Err(Error::InvalidSignature);
        }
        if !verify_signature(&c.signature_public, &payload, &c.signature) {
            proof {
                if sigs_ok(*tx, cashiers) {
                    assert(sig_valid_spec(
                        tx.clear_inputs@[i as int].signature_public@,
                        tx_payload(*tx),
                        tx.clear_inputs@[i as int].signature,
                    ));
                }
                assert(!sigs_ok(*tx, cashiers));
                assert(tx_verdict(*tx, true, g, cashiers, roots, nulls) == Some(
                    Error::InvalidSignature,
                ));
            }
            return Err(Error::InvalidSignature);
        }
        i += 1;
    }
    let mut i: usize = 0;
    while i < tx.inputs.len()
        invariant
            state.wf(),
            tx.wf(),
            i <= tx.inputs@.len(),
            payload@ == tx_payload(*tx),
            forall|j: int| 0 <= j < tx.clear_inputs@.len() ==> cashiers.contains(
                (#[trigger] tx.clear_inputs@[j]).signature_public@,
            ) && sig_valid_spec(
                tx.clear_inputs@[j].signature_public@,
                tx_payload(*tx),
                tx.clear_inputs@[j].signature,
            ),
            forall|j: int| 0 <= j < i ==> sig_valid_spec(
                (#[trigger] tx.inputs@[j]).signature_public@,
                tx_payload(*tx),
                tx.inputs@[j].signature,
            ),
        decreases tx.inputs@.len() - i,
    {
        let s = &tx.inputs[i];
        if !verify_signature(&s.signature_public, &payload, &s.signature) {
            proof {
                if sigs_ok(*tx, cashiers) {
                    assert(sig_valid_spec(
                        tx.inputs@[i as int].signature_public@,
                        tx_payload(*tx),
                        tx.inputs@[i as int].signature,
                    ));
                }
                assert(!sigs_ok(*tx, cashiers));
                assert(tx_verdict(*tx, true, g, cashiers, roots, nulls) == Some(
                    Error::InvalidSignature,
                ));
            }
            return Err(Error::InvalidSignature);
        }
        i += 1;
    }
    proof {
        assert(sigs_ok(*tx, cashiers));
    }

    // Step 3a: every referenced root must be recorded.
    let mut i: usize = 0;
    while i < tx.inputs.len()
        invariant
            state.wf(),
            tx.wf(),
            i <= tx.inputs@.len(),
            sigs_ok(*tx, cashiers),
            forall|j: int| 0 <= j < i ==> roots.contains(
                (#[trigger] tx.inputs@[j]).merkle_root@,
            ),
        decreases tx.inputs@.len() - i,
    {
        let s = &tx.inputs[i];
        if !contains_bytes(&state.merkle_roots, &s.merkle_root) {
            proof {
                if roots_ok(*tx, roots) {
                    assert(roots.contains(tx.inputs@[i as int].merkle_root@));
                }
                assert(!roots_ok(*tx, roots));
                assert(tx_verdict(*tx, true, g, cashiers, roots, nulls) == Some(
                    Error::UnknownRoot,
                ));
            }
            return Err(Error::UnknownRoot);
        }
        i += 1;
    }
    proof {
        assert(roots_ok(*tx, roots));
    }

    // Step 3b: every nullifier must be fresh, also within this
    // transaction.
    let mut i: usize = 0;
    while i < tx.inputs.len()
        invariant
            state.wf(),
            tx.wf(),
            i <= tx.inputs@.len(),
            sigs_ok(*tx, cashiers),
            roots_ok(*tx, roots),
            forall|j: int| 0 <= j < i ==> !nulls.contains(
                (#[trigger] tx.inputs@[j]).nullifier.repr@,
            ),
            forall|j1: int, j2: int| 0 <= j1 < j2 < i
                ==> (#[trigger] tx.inputs@[j1]).nullifier.repr@ != (
            #[trigger] tx.inputs@[j2]).nullifier.repr@,
        decreases tx.inputs@.len() - i,
    {
        let s = &tx.inputs[i];
        if contains_bytes(&state.nullifiers, &s.nullifier.repr) {
            proof {
                if no_reuse(*tx, nulls) {
                    assert(!nulls.contains(tx.inputs@[i as int].nullifier.repr@));
                }
                assert(!no_reuse(*tx, nulls));
                assert(tx_verdict(*tx, true, g, cashiers, roots, nulls) == Some(
                    Error::NullifierReused,
                ));
            }
            return Err(Error::NullifierReused);
        }
        let mut j: usize = 0;
        while j < i
            invariant
                state.wf(),
                tx.wf(),
                j <= i < tx.inputs@.len(),
                forall|j1: int| 0 <= j1 < j ==> (#[trigger] tx.inputs@[j1]).nullifier.repr@
                    != tx.inputs@[i as int].nullifier.repr@,
            decreases i - j,
        {
            if bytes_eq(&tx.inputs[j].nullifier.repr, &tx.inputs[i].nullifier.repr) {
                proof {
                    if no_reuse(*tx, nulls) {
                        assert(tx.inputs@[j as int].nullifier.repr@
                            != tx.inputs@[i as int].nullifier.repr@);
                    }
                    assert(!no_reuse(*tx, nulls));
                }
                return Err(Error::NullifierReused);
            }
            j += 1;
        }
        i += 1;
    }
    proof {
        assert(no_reuse(*tx, nulls));
    }

    // Step 4: value conservation as curve-point equations.
    let zero = fr_from_u64(0);
    let mut vl: Vec<Vec<u8>> = Vec::new();
    let mut al: Vec<Vec<u8>> = Vec::new();
    let mut i: usize = 0;
    while i < tx.clear_inputs.len()
        invariant
            state.wf(),
            tx.wf(),
            g == state.gens_spec(),
            i <= tx.clear_inputs@.len(),
            zero@ == fr_of_u64(0),
            crate::curve::is_fr(zero@),
            zero@.len() == 32,
            forall|k: int| 0 <= k < i ==> crate::curve::is_fr(
                (#[trigger] tx.clear_inputs@[k]).asset_id@,
            ),
            seqs_of(vl@) == Seq::new(i as nat, |k: int| clear_value_commit(
                g,
                tx.clear_inputs@[k],
            )),
            seqs_of(al@) == Seq::new(i as nat, |k: int| clear_asset_commit(
                g,
                tx.clear_inputs@[k],
            )),
            forall|k: int| 0 <= k < vl@.len() ==> (#[trigger] vl@[k])@.len() == 32,
            forall|k: int| 0 <= k < al@.len() ==> (#[trigger] al@[k])@.len() == 32,
        decreases tx.clear_inputs@.len() - i,
    {
        let c = &tx.clear_inputs[i];
        proof {
            state.gens_spec().lemma_wf_facts();
        }
        let vc = match pedersen_commit(state.gens_ref(), c.value, &zero) {
            Some(p) => p,
            None => {
                proof {
                    assert(false);
                }
                return Err(Error::ValueImbalance);
            },
        };
        let ac = match asset_commit(state.gens_ref(), &c.asset_id, &zero) {
            Some(p) => p,
            None => {
                proof {
                    if clear_ok(*tx) {
                        assert(crate::curve::is_fr(tx.clear_inputs@[i as int].asset_id@));
                    }
                    assert(!clear_ok(*tx));
                    assert(tx_verdict(*tx, true, g, cashiers, roots, nulls) == Some(
                        Error::ValueImbalance,
                    ));
                }
                return Err(Error::ValueImbalance);
            },
        };
        let ghost prev = vl@;
        let ghost prea = al@;
        let ghost vcv = vc@;
        let ghost acv = ac@;
        vl.push(vc);
        al.push(ac);
        proof {
            assert(seqs_of(vl@) =~= seqs_of(prev).push(vcv));
            assert(seqs_of(prev).push(vcv) =~= Seq::new(
                (i + 1) as nat,
                |k: int| clear_value_commit(g, tx.clear_inputs@[k]),
            ));
            assert(seqs_of(al@) =~= seqs_of(prea).push(acv));
            assert(seqs_of(prea).push(acv) =~= Seq::new(
                (i + 1) as nat,
                |k: int| clear_asset_commit(g, tx.clear_inputs@[k]),
            ));
        }
        i += 1;
    }
    proof {
        assert(clear_ok(*tx));
    }
    let ghost n_clear = tx.clear_inputs@.len();
    let mut i: usize = 0;
    while i < tx.inputs.len()
        invariant
            state.wf(),
            tx.wf(),
            g == state.gens_spec(),
            i <= tx.inputs@.len(),
            seqs_of(vl@) == value_lhs(*tx, g).take(n_clear + i),
            seqs_of(al@) == asset_lhs(*tx, g).take(n_clear + i),
            n_clear == tx.clear_inputs@.len(),
            forall|k: int| 0 <= k < vl@.len() ==> (#[trigger] vl@[k])@.len() == 32,
            forall|k: int| 0 <= k < al@.len() ==> (#[trigger] al@[k])@.len() == 32,
        decreases tx.inputs@.len() - i,
    {
        let sp = &tx.inputs[i];
        let ghost prev = vl@;
        let ghost prea = al@;
        vl.push(clone_bytes(&sp.value_commit));
        al.push(clone_bytes(&sp.asset_commit));
        proof {
            assert(seqs_of(vl@) =~= seqs_of(prev).push(tx.inputs@[i as int].value_commit@));
            assert(seqs_of(prev).push(tx.inputs@[i as int].value_commit@) =~= value_lhs(
                *tx,
                g,
            ).take(n_clear + i + 1));
            assert(seqs_of(al@) =~= seqs_of(prea).push(tx.inputs@[i as int].asset_commit@));
            assert(seqs_of(prea).push(tx.inputs@[i as int].asset_commit@) =~= asset_lhs(
                *tx,
                g,
            ).take(n_clear + i + 1));
        }
        i += 1;
    }
    let mut vr: Vec<Vec<u8>> = Vec::new();
    let mut ar: Vec<Vec<u8>> = Vec::new();
    let mut i: usize = 0;
    while i < tx.outputs.len()
        invariant
            state.wf(),
            tx.wf(),
            i <= tx.outputs@.len(),
            seqs_of(vr@) == value_rhs(*tx).take(i as int),
            seqs_of(ar@) == asset_rhs(*tx).take(i as int),
            forall|k: int| 0 <= k < vr@.len() ==> (#[trigger] vr@[k])@.len() == 32,
            forall|k: int| 0 <= k < ar@.len() ==> (#[trigger] ar@[k])@.len() == 32,
        decreases tx.outputs@.len() - i,
    {
        let o = &tx.outputs[i];
        let ghost prev = vr@;
        let ghost prea = ar@;
        vr.push(clone_bytes(&o.value_commit));
        ar.push(clone_bytes(&o.asset_commit));
        proof {
            assert(seqs_of(vr@) =~= seqs_of(prev).push(tx.outputs@[i as int].value_commit@));
            assert(seqs_of(prev).push(tx.outputs@[i as int].value_commit@) =~= value_rhs(
                *tx,
            ).take(i + 1));
            assert(seqs_of(ar@) =~= seqs_of(prea).push(tx.outputs@[i as int].asset_commit@));
            assert(seqs_of(prea).push(tx.outputs@[i as int].asset_commit@) =~= asset_rhs(
                *tx,
            ).take(i + 1));
        }
        i += 1;
    }
    proof {
        assert(seqs_of(vl@) =~= value_lhs(*tx, g));
        assert(seqs_of(al@) =~= asset_lhs(*tx, g));
        assert(seqs_of(vr@) =~= value_rhs(*tx));
        assert(seqs_of(ar@) =~= asset_rhs(*tx));
    }
    if !check_balance_side(&vl, &vr) {
        proof {
            assert(tx_verdict(*tx, true, g, cashiers, roots, nulls) == Some(
                Error::ValueImbalance,
            ));
        }
        return Err(Error::ValueImbalance);
    }
    proof {
        assert(al@.len() <= u64::MAX && ar@.len() <= u64::MAX);
    }
    if !check_scaled_balance_side(&al, &ar) {
        proof {
            assert(tx_verdict(*tx, true, g, cashiers, roots, nulls) == Some(
                Error::ValueImbalance,
            ));
        }
        return Err(Error::ValueImbalance);
    }
    proof {
        assert(balanced(*tx, g));
    }

    // All checks passed: assemble the effects.
    let mut nullifiers: Vec<Nullifier> = Vec::new();
    let mut i: usize = 0;
    while i < tx.inputs.len()
        invariant
            tx.wf(),
            i <= tx.inputs@.len(),
            nullifiers@.len() == i,
            forall|k: int| 0 <= k < i ==> (#[trigger] nullifiers@[k]).repr@
                == tx.inputs@[k].nullifier.repr@,
        decreases tx.inputs@.len() - i,
    {
        nullifiers.push(Nullifier { repr: clone_bytes(&tx.inputs[i].nullifier.repr) });
        i += 1;
    }
    let mut coins: Vec<Coin> = Vec::new();
    let mut enc_notes: Vec<EncryptedNote> = Vec::new();
    let mut i: usize = 0;
    while i < tx.outputs.len()
        invariant
            tx.wf(),
            i <= tx.outputs@.len(),
            coins@.len() == i,
            enc_notes@.len() == i,
            forall|k: int| 0 <= k < i ==> (#[trigger] coins@[k]).repr@
                == tx.outputs@[k].coin.repr@,
            forall|k: int| 0 <= k < i ==> (#[trigger] enc_notes@[k]).ciphertext@
                == tx.outputs@[k].enc_note.ciphertext@ && enc_notes@[k].ephem_public@
                == tx.outputs@[k].enc_note.ephem_public@,
        decreases tx.outputs@.len() - i,
    {
        let o = &tx.outputs[i];
        coins.push(Coin { repr: clone_bytes(&o.coin.repr) });
        enc_notes.push(
            EncryptedNote {
                ciphertext: clone_bytes(&o.enc_note.ciphertext),
                ephem_public: clone_bytes(&o.enc_note.ephem_public),
            },
        );
        i += 1;
    }
    let u = StateUpdate { nullifiers, coins, enc_notes };
    proof {
        assert(tx_verdict(*tx, true, g, cashiers, roots, nulls) is None);
        assert(update_matches(u, *tx));
    }
    Ok(u)
}


/// The ledger quantities a transaction is judged against and changes:
/// the tree leaves, the recorded roots and the nullifier set.
pub struct LedgerView {
    pub leaves: Seq<Seq<u8>>,
    pub roots: Seq<Seq<u8>>,
    pub nulls: Seq<Seq<u8>>,
}

impl State {
    /// This state's ledger quantities.
    pub open spec fn ledger(&self) -> LedgerView {
        LedgerView { leaves: self.leaves(), roots: self.roots(), nulls: self.nullifiers() }
    }
}

/// The nullifier values a transaction's spends expose, in order.
pub open spec fn tx_nullifiers(tx: Transaction) -> Seq<Seq<u8>> {
    Seq::new(tx.inputs@.len(), |i: int| tx.inputs@[i].nullifier.repr@)
}

/// The coin values a transaction's outputs create, in order.
pub open spec fn tx_coins(tx: Transaction) -> Seq<Seq<u8>> {
    Seq::new(tx.outputs@.len(), |i: int| tx.outputs@[i].coin.repr@)
}

/// The roots recorded while appending `coins` onto `leaves`, one after
/// every single append.
pub open spec fn roots_after(leaves: Seq<Seq<u8>>, coins: Seq<Seq<u8>>) -> Seq<Seq<u8>> {
    Seq::new(
        coins.len(),
        |i: int| root_spec(TREE_DEPTH as nat, leaves + coins.take(i + 1)),
    )
}

/// The ledger after one accepted transaction lands: its nullifiers
/// enter the set, its coins the tree, and one root per append the
/// history.
pub open spec fn apply_effects(v: LedgerView, tx: Transaction) -> LedgerView {
    LedgerView {
        leaves: v.leaves + tx_coins(tx),
        roots: v.roots + roots_after(v.leaves, tx_coins(tx)),
        nulls: v.nulls + tx_nullifiers(tx),
    }
}

/// Whether a transaction's coins fit the tree's remaining capacity.
pub open spec fn fits(v: LedgerView, tx: Transaction) -> bool {
    v.leaves.len() + tx.outputs@.len() <= two_pow(TREE_DEPTH as nat)
}

/// The outcome of one batch element at a ledger view: the protocol
/// verdict, or the capacity error when a passing transaction's coins
/// do not fit.
pub open spec fn batch_outcome(
    v: LedgerView,
    tx: Transaction,
    mvk: Seq<u8>,
    svk: Seq<u8>,
    g: PedersenGens,
    cashiers: Seq<Seq<u8>>,
) -> Option<Error> {
    match tx_verdict(tx, proofs_ok_spec(tx, mvk, svk), g, cashiers, v.roots, v.nulls) {
        Some(e) => Some(e),
        None => if fits(v, tx) {
            None
        } else {
            Some(Error::TreeCapacityExceeded)
        },
    }
}

/// The ledger view before batch element `n`: the effects of every
/// earlier accepted element applied in batch order, rejected elements
/// changing nothing.
pub open spec fn batch_view(
    v0: LedgerView,
    txs: Seq<Transaction>,
    n: int,
    mvk: Seq<u8>,
    svk: Seq<u8>,
    g: PedersenGens,
    cashiers: Seq<Seq<u8>>,
) -> LedgerView
    decreases n,
{
    if n <= 0 {
        v0
    } else {
        let prev = batch_view(v0, txs, n - 1, mvk, svk, g, cashiers);
        if batch_outcome(prev, txs[n - 1], mvk, svk, g, cashiers) is None {
            apply_effects(prev, txs[n - 1])
        } else {
            prev
        }
    }
}

/// Whether one returned result reports exactly one verdict.
pub open spec fn outcome_matches(
    o: Result<StateUpdate, Error>,
    tx: Transaction,
    verdict: Option<Error>,
) -> bool {
    match verdict {
        None => o matches Ok(u) && update_matches(u, tx) && u.wf(),
        Some(e) => o == Result::<StateUpdate, Error>::Err(e),
    }
}

impl State {
    /// Verifies a batch in order and, when `apply` is set, commits each
    /// accepted transaction's effects before looking at the next one: a
    /// later transaction in the batch sees the nullifiers and coins of
    /// the earlier ones, so two spends of one coin cannot both land.
    /// Each result is exactly the batch outcome of its element at the
    /// ledger as evolved so far; a rejected element changes nothing,
    /// and recorded roots and nullifiers only ever grow.
    #[verifier::loop_isolation(false)]
    pub fn verify_transactions(&mut self, txs: &Vec<Transaction>, apply: bool) -> (r: Vec<
        Result<StateUpdate, Error>,
    >)
        requires
            old(self).wf(),
            forall|i: int| 0 <= i < txs@.len() ==> (#[trigger] txs@[i]).wf(),
        ensures
            final(self).wf(),
            r@.len() == txs@.len(),
            final(self).cashiers() == old(self).cashiers(),
            final(self).gens_spec() == old(self).gens_spec(),
            final(self).spec_mint_pvk() == old(self).spec_mint_pvk(),
            final(self).spec_spend_pvk() == old(self).spec_spend_pvk(),
            !apply ==> *final(self) == *old(self),
            !apply ==> forall|i: int| 0 <= i < txs@.len() ==> outcome_matches(
                #[trigger] r@[i],
                txs@[i],
                tx_verdict(
                    txs@[i],
                    proofs_ok_spec(txs@[i], old(self).spec_mint_pvk(), old(self).spec_spend_pvk()),
                    old(self).gens_spec(),
                    old(self).cashiers(),
                    old(self).roots(),
                    old(self).nullifiers(),
                ),
            ),
            apply ==> forall|i: int| 0 <= i < txs@.len() ==> outcome_matches(
                #[trigger] r@[i],
                txs@[i],
                batch_outcome(
                    batch_view(
                        old(self).ledger(),
                        txs@,
                        i,
                        old(self).spec_mint_pvk(),
                        old(self).spec_spend_pvk(),
                        old(self).gens_spec(),
                        old(self).cashiers(),
                    ),
                    txs@[i],
                    old(self).spec_mint_pvk(),
                    old(self).spec_spend_pvk(),
                    old(self).gens_spec(),
                    old(self).cashiers(),
                ),
            ),
            apply ==> final(self).ledger() == batch_view(
                old(self).ledger(),
                txs@,
                txs@.len() as int,
                old(self).spec_mint_pvk(),
                old(self).spec_spend_pvk(),
                old(self).gens_spec(),
                old(self).cashiers(),
            ),
            old(self).roots().len() <= final(self).roots().len(),
            old(self).nullifiers().len() <= final(self).nullifiers().len(),
            old(self).roots() == final(self).roots().take(old(self).roots().len() as int),
            old(self).nullifiers() == final(self).nullifiers().take(
                old(self).nullifiers().len() as int,
            ),
    {
        let ghost v0 = old(self).ledger();
        let ghost mvk = old(self).spec_mint_pvk();
        let ghost svk = old(self).spec_spend_pvk();
        let ghost g = old(self).gens_spec();
        let ghost cashiers = old(self).cashiers();
        let mut r: Vec<Result<StateUpdate, Error>> = Vec::new();
        let mut i: usize = 0;
        while i < txs.len()
            invariant
                self.wf(),
                i <= txs@.len(),
                r@.len() == i,
                !apply ==> *self == *old(self),
                self.cashiers() == cashiers,
                self.gens_spec() == g,
                self.spec_mint_pvk() == mvk,
                self.spec_spend_pvk() == svk,
                apply ==> self.ledger() == batch_view(v0, txs@, i as int, mvk, svk, g, cashiers),
                apply ==> forall|j: int| 0 <= j < i ==> outcome_matches(
                    #[trigger] r@[j],
                    txs@[j],
                    batch_outcome(
                        batch_view(v0, txs@, j, mvk, svk, g, cashiers),
                        txs@[j],
                        mvk,
                        svk,
                        g,
                        cashiers,
                    ),
                ),
                !apply ==> forall|j: int| 0 <= j < i ==> outcome_matches(
                    #[trigger] r@[j],
                    txs@[j],
                    tx_verdict(
                        txs@[j],
                        proofs_ok_spec(txs@[j], mvk, svk),
                        g,
                        cashiers,
                        old(self).roots(),
                        old(self).nullifiers(),
                    ),
                ),
                old(self).roots().len() <= self.roots().len(),
                old(self).nullifiers().len() <= self.nullifiers().len(),
                old(self).roots() == self.roots().take(old(self).roots().len() as int),
                old(self).nullifiers() == self.nullifiers().take(
                    old(self).nullifiers().len() as int,
                ),
            decreases txs@.len() - i,
        {
            let ghost bv = if apply {
                batch_view(v0, txs@, i as int, mvk, svk, g, cashiers)
            } else {
                old(self).ledger()
            };
            let ghost txv = txs@[i as int];
            let outcome = state_transition(self, &txs[i]);
            let ghost verdict = tx_verdict(
                txv,
                proofs_ok_spec(txv, mvk, svk),
                g,
                cashiers,
                bv.roots,
                bv.nulls,
            );
            match outcome {
                Ok(u) => {
                    proof {
                        assert(verdict is None);
                    }
                    if apply {
                        let ghost pre_roots = self.roots();
                        let ghost pre_nulls = self.nullifiers();
                        match self.apply(&u) {
                            Ok(()) => {
                                proof {
                                    assert(u.coin_views() =~= tx_coins(txv));
                                    assert(update_matches(u, txv) && fits(bv, txv));
                                    assert(self.nullifiers() =~= bv.nulls + tx_nullifiers(
                                        txv,
                                    )) by {
                                        assert(u.nullifier_views() =~= tx_nullifiers(txv));
                                    }
                                    assert forall|k: int|
                                        0 <= k < tx_coins(txv).len() implies roots_after(
                                        bv.leaves,
                                        tx_coins(txv),
                                    )[k] == self.roots()[bv.roots.len() + k] by {
                                        assert(tx_coins(txv).take(k + 1)
                                            =~= u.coin_views().take(k + 1));
                                    }
                                    assert(self.roots() =~= bv.roots + roots_after(
                                        bv.leaves,
                                        tx_coins(txv),
                                    ));
                                    assert(self.ledger() == apply_effects(bv, txv));
                                    assert(batch_outcome(bv, txv, mvk, svk, g, cashiers)
                                        is None);
                                    assert(self.roots().take(old(self).roots().len() as int)
                                        =~= pre_roots.take(old(self).roots().len() as int));
                                    assert(self.nullifiers().take(
                                        old(self).nullifiers().len() as int,
                                    ) =~= pre_nulls.take(old(self).nullifiers().len() as int));
                                }
                                r.push(Ok(u));
                            },
                            Err(e) => {
                                proof {
                                    assert(e == Error::TreeCapacityExceeded);
                                    assert(!fits(bv, txv));
                                    assert(batch_outcome(bv, txv, mvk, svk, g, cashiers)
                                        == Some(Error::TreeCapacityExceeded));
                                }
                                r.push(Err(e));
                            },
                        }
                    } else {
                        r.push(Ok(u));
                    }
                },
                Err(e) => {
                    proof {
                        assert(verdict == Some(e));
                    }
                    r.push(Err(e));
                },
            }
            i += 1;
        }
        proof {
            if apply {
                assert(final(self).ledger() == batch_view(
                    v0,
                    txs@,
                    txs@.len() as int,
                    mvk,
                    svk,
                    g,
                    cashiers,
                ));
            }
        }
        r
    }
}

/// A spend whose nullifier is already in the set can never pass: for a
/// transaction with valid signatures and recorded roots, the verdict is
/// the double-spend rejection whenever the proofs verify, and some
/// rejection in any case.
pub proof fn lemma_spent_nullifier_rejected(
    tx: Transaction,
    g: PedersenGens,
    cashiers: Seq<Seq<u8>>,
    roots: Seq<Seq<u8>>,
    nulls: Seq<Seq<u8>>,
    i: int,
)
    requires
        0 <= i < tx.inputs@.len(),
        nulls.contains(tx.inputs@[i].nullifier.repr@),
        sigs_ok(tx, cashiers),
        roots_ok(tx, roots),
    ensures
        tx_verdict(tx, true, g, cashiers, roots, nulls) == Some(Error::NullifierReused),
        forall|b: bool| #[trigger] tx_verdict(tx, b, g, cashiers, roots, nulls) is Some,
{
    if no_reuse(tx, nulls) {
        assert(!nulls.contains(tx.inputs@[i].nullifier.repr@));
    }
}

/// Two spends of one coin in a batch: once the first transaction's
/// effects are applied, the set holds its nullifiers, so the second
/// transaction sharing one is rejected as a double spend whenever its
/// proofs verify, and rejected in any case.
pub proof fn lemma_double_spend_rejected(
    t1: Transaction,
    t2: Transaction,
    g: PedersenGens,
    cashiers: Seq<Seq<u8>>,
    roots2: Seq<Seq<u8>>,
    nulls: Seq<Seq<u8>>,
    u1: StateUpdate,
    i: int,
    j: int,
)
    requires
        update_matches(u1, t1),
        0 <= i < t1.inputs@.len(),
        0 <= j < t2.inputs@.len(),
        t1.inputs@[i].nullifier.repr@ == t2.inputs@[j].nullifier.repr@,
        sigs_ok(t2, cashiers),
        roots_ok(t2, roots2),
    ensures
        tx_verdict(
            t2,
            true,
            g,
            cashiers,
            roots2,
            nulls + u1.nullifier_views(),
        ) == Some(Error::NullifierReused),
        forall|b: bool| #[trigger] tx_verdict(
            t2,
            b,
            g,
            cashiers,
            roots2,
            nulls + u1.nullifier_views(),
        ) is Some,
{
    let merged = nulls + u1.nullifier_views();
    assert(u1.nullifier_views()[i] == t1.inputs@[i].nullifier.repr@);
    assert(merged[nulls.len() + i] == t2.inputs@[j].nullifier.repr@);
    assert(merged.contains(t2.inputs@[j].nullifier.repr@));
    lemma_spent_nullifier_rejected(t2, g, cashiers, roots2, merged, j);
}

/// The batch form of the double-spend law, tied to
/// `verify_transactions`' contract: in a two-element batch whose first
/// element is accepted, a second element spending one of the same
/// coins — with verifying proofs and signatures and a recorded root —
/// has exactly the double-spend rejection as its batch outcome.
pub proof fn lemma_batch_double_spend(
    v0: LedgerView,
    t1: Transaction,
    t2: Transaction,
    mvk: Seq<u8>,
    svk: Seq<u8>,
    g: PedersenGens,
    cashiers: Seq<Seq<u8>>,
    i: int,
    j: int,
)
    requires
        batch_outcome(v0, t1, mvk, svk, g, cashiers) is None,
        0 <= i < t1.inputs@.len(),
        0 <= j < t2.inputs@.len(),
        t1.inputs@[i].nullifier.repr@ == t2.inputs@[j].nullifier.repr@,
        proofs_ok_spec(t2, mvk, svk),
        sigs_ok(t2, cashiers),
        roots_ok(t2, apply_effects(v0, t1).roots),
    ensures
        batch_outcome(
            batch_view(v0, seq![t1, t2], 1, mvk, svk, g, cashiers),
            t2,
            mvk,
            svk,
            g,
            cashiers,
        ) == Some(Error::NullifierReused),
{
    let v1 = batch_view(v0, seq![t1, t2], 1, mvk, svk, g, cashiers);
    assert(seq![t1, t2][0] == t1);
    assert(batch_view(v0, seq![t1, t2], 0, mvk, svk, g, cashiers) == v0);
    assert(v1 == apply_effects(v0, t1));
    assert(v1.nulls[v0.nulls.len() + i] == t2.inputs@[j].nullifier.repr@);
    assert(v1.nulls.contains(t2.inputs@[j].nullifier.repr@));
    if no_reuse(t2, v1.nulls) {
        assert(!v1.nulls.contains(t2.inputs@[j].nullifier.repr@));
    }
    assert(tx_verdict(t2, proofs_ok_spec(t2, mvk, svk), g, cashiers, v1.roots, v1.nulls)
        == Some(Error::NullifierReused));
}

/// A transaction whose commitment sums differ is rejected with the
/// imbalance error whenever everything before that check passes.
pub proof fn lemma_imbalance_rejected(
    tx: Transaction,
    g: PedersenGens,
    cashiers: Seq<Seq<u8>>,
    roots: Seq<Seq<u8>>,
    nulls: Seq<Seq<u8>>,
)
    requires
        sigs_ok(tx, cashiers),
        roots_ok(tx, roots),
        no_reuse(tx, nulls),
        !balanced(tx, g),
    ensures
        tx_verdict(tx, true, g, cashiers, roots, nulls) == Some(Error::ValueImbalance),
        forall|b: bool| #[trigger] tx_verdict(tx, b, g, cashiers, roots, nulls) is Some,
{
}

} // verus!
