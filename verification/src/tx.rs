//! Transactions: the wire-level structures the state-transition engine
//! consumes, and the builder that assembles them.
//!
//! A transaction carries clear inputs (value declared openly, vouched
//! for by a cashier signature), spend inputs (a proof blob and the
//! revealed nullifier, root and commitments) and outputs (a proof blob,
//! commitments, the coin, and the note ciphertext for the recipient).

use vstd::prelude::*;
use crate::bytes::{u64_le_bytes, u64_to_le, push_bytes, clone_bytes, lemma_u64_le_round_trip};
use crate::curve::{
    Signature, PedersenGens, is_fr, pk_of, pedersen_commit, commit_spec, sign, fr_add_exec,
    fr_sub_exec, fr_mul_exec, fr_inv_exec, fr_from_u64,
};
use crate::note::{
    Note, Nullifier, Coin, EncryptedNote, coin_of, coin_commitment, nullifier_of, encrypt_note,
};
use crate::merkle::MerklePath;
use crate::circuit::{SpendContract, asset_commit};
use crate::Error;

verus! {

/// An input whose value is public: minting vouched for by a cashier.
pub struct ClearInput {
    pub value: u64,
    pub asset_id: Vec<u8>,
    pub signature_public: Vec<u8>,
    pub signature: Signature,
}

/// A shielded input: spends a coin recorded under `merkle_root`.
pub struct SpendInput {
    pub proof: Vec<u8>,
    pub value_commit: Vec<u8>,
    pub asset_commit: Vec<u8>,
    pub nullifier: Nullifier,
    pub merkle_root: Vec<u8>,
    pub signature_public: Vec<u8>,
    pub signature: Signature,
}

/// A shielded output: creates the coin and hands the note ciphertext to
/// its recipient.
pub struct Output {
    pub proof: Vec<u8>,
    pub value_commit: Vec<u8>,
    pub asset_commit: Vec<u8>,
    pub coin: Coin,
    pub enc_note: EncryptedNote,
}

/// A transaction: clear inputs, spend inputs and outputs.
pub struct Transaction {
    pub clear_inputs: Vec<ClearInput>,
    pub inputs: Vec<SpendInput>,
    pub outputs: Vec<Output>,
}

impl ClearInput {
    pub open spec fn wf(&self) -> bool {
        &&& self.asset_id@.len() == 32
        &&& self.signature_public@.len() == 32
        &&& self.signature.wf()
    }
}

impl SpendInput {
    pub open spec fn wf(&self) -> bool {
        &&& self.value_commit@.len() == 32
        &&& self.asset_commit@.len() == 32
        &&& self.nullifier.wf()
        &&& self.merkle_root@.len() == 32
        &&& self.signature_public@.len() == 32
        &&& self.signature.wf()
    }
}

impl Output {
    pub open spec fn wf(&self) -> bool {
        &&& self.value_commit@.len() == 32
        &&& self.asset_commit@.len() == 32
        &&& self.coin.wf()
        &&& self.enc_note.wf()
    }
}

impl Transaction {
    pub open spec fn wf(&self) -> bool {
        &&& forall|i: int| 0 <= i < self.clear_inputs@.len() ==> (
        #[trigger] self.clear_inputs@[i]).wf()
        &&& forall|i: int| 0 <= i < self.inputs@.len() ==> (#[trigger] self.inputs@[i]).wf()
        &&& forall|i: int| 0 <= i < self.outputs@.len() ==> (#[trigger] self.outputs@[i]).wf()
    }
}

impl Transaction {
    /// Runtime well-formedness check, for callers outside the library
    /// that received a transaction from the wire: true exactly when
    /// every field has its protocol length.
    pub fn check_wf(&self) -> (r: bool)
        ensures
            r == self.wf(),
    {
        let mut i: usize = 0;
        while i < self.clear_inputs.len()
            invariant
                i <= self.clear_inputs@.len(),
                forall|j: int| 0 <= j < i ==> (#[trigger] self.clear_inputs@[j]).wf(),
            decreases self.clear_inputs@.len() - i,
        {
            let c = &self.clear_inputs[i];
            if c.asset_id.len() != 32 || c.signature_public.len() != 32
                || c.signature.nonce_point.len() != 32 || c.signature.response.len() != 32 {
                proof {
                    if self.wf() {
                        assert(self.clear_inputs@[i as int].wf());
                    }
                }
                return false;
            }
            i += 1;
        }
        let mut i: usize = 0;
        while i < self.inputs.len()
            invariant
                i <= self.inputs@.len(),
                forall|j: int| 0 <= j < self.clear_inputs@.len() ==> (
                #[trigger] self.clear_inputs@[j]).wf(),
                forall|j: int| 0 <= j < i ==> (#[trigger] self.inputs@[j]).wf(),
            decreases self.inputs@.len() - i,
        {
            let s = &self.inputs[i];
            if s.value_commit.len() != 32 || s.asset_commit.len() != 32
                || s.nullifier.repr.len() != 32 || s.merkle_root.len() != 32
                || s.signature_public.len() != 32 || s.signature.nonce_point.len() != 32
                || s.signature.response.len() != 32 {
                proof {
                    if self.wf() {
                        assert(self.inputs@[i as int].wf());
                    }
                }
                return false;
            }
            i += 1;
        }
        let mut i: usize = 0;
        while i < self.outputs.len()
            invariant
                i <= self.outputs@.len(),
                forall|j: int| 0 <= j < self.clear_inputs@.len() ==> (
                #[trigger] self.clear_inputs@[j]).wf(),
                forall|j: int| 0 <= j < self.inputs@.len() ==> (
                #[trigger] self.inputs@[j]).wf(),
                forall|j: int| 0 <= j < i ==> (#[trigger] self.outputs@[j]).wf(),
            decreases self.outputs@.len() - i,
        {
            let o = &self.outputs[i];
            if o.value_commit.len() != 32 || o.asset_commit.len() != 32
                || o.coin.repr.len() != 32 || o.enc_note.ciphertext.len() != 232
                || o.enc_note.ephem_public.len() != 32 {
                proof {
                    if self.wf() {
                        assert(self.outputs@[i as int].wf());
                    }
                }
                return false;
            }
            i += 1;
        }
        true
    }
}

/// The public bytes a clear input contributes to the signed payload.
pub open spec fn clear_payload_one(c: ClearInput) -> Seq<u8> {
    u64_le_bytes(c.value) + c.asset_id@
}

/// The public bytes a spend input contributes to the signed payload.
pub open spec fn spend_payload_one(s: SpendInput) -> Seq<u8> {
    s.nullifier.repr@ + s.merkle_root@ + s.value_commit@ + s.asset_commit@
}

/// The public bytes an output contributes to the signed payload.
pub open spec fn output_payload_one(o: Output) -> Seq<u8> {
    o.coin.repr@ + o.value_commit@ + o.asset_commit@
}

pub open spec fn clear_payload(s: Seq<ClearInput>) -> Seq<u8>
    decreases s.len(),
{
    if s.len() == 0 {
        Seq::empty()
    } else {
        clear_payload(s.drop_last()) + clear_payload_one(s.last())
    }
}

pub open spec fn spend_payload(s: Seq<SpendInput>) -> Seq<u8>
    decreases s.len(),
{
    if s.len() == 0 {
        Seq::empty()
    } else {
        spend_payload(s.drop_last()) + spend_payload_one(s.last())
    }
}

pub open spec fn output_payload(s: Seq<Output>) -> Seq<u8>
    decreases s.len(),
{
    if s.len() == 0 {
        Seq::empty()
    } else {
        output_payload(s.drop_last()) + output_payload_one(s.last())
    }
}

/// The public data of a transaction that every signature covers: all
/// clear values, then all spend publics, then all output publics.
pub open spec fn tx_payload(tx: Transaction) -> Seq<u8> {
    clear_payload(tx.clear_inputs@) + spend_payload(tx.inputs@) + output_payload(tx.outputs@)
}

/// Serializes the signed public payload of a transaction.
pub fn build_payload(tx: &Transaction) -> (r: Vec<u8>)
    requires
        tx.wf(),
    ensures
        r@ == tx_payload(*tx),
{
    let mut r: Vec<u8> = Vec::new();
    let mut i: usize = 0;
    while i < tx.clear_inputs.len()
        invariant
            tx.wf(),
            i <= tx.clear_inputs@.len(),
            r@ == clear_payload(tx.clear_inputs@.take(i as int)),
        decreases tx.clear_inputs@.len() - i,
    {
        let c = &tx.clear_inputs[i];
        let vle = u64_to_le(c.value);
        push_bytes(&mut r, &vle);
        push_bytes(&mut r, &c.asset_id);
        proof {
            let pre = tx.clear_inputs@.take(i as int);
            let cur = tx.clear_inputs@.take(i + 1);
            assert(cur.drop_last() =~= pre);
            assert(cur.last() == tx.clear_inputs@[i as int]);
            assert(r@ =~= clear_payload(pre) + clear_payload_one(cur.last()));
        }
        i += 1;
    }
    proof {
        assert(tx.clear_inputs@.take(tx.clear_inputs@.len() as int) =~= tx.clear_inputs@);
    }
    let ghost cpl = clear_payload(tx.clear_inputs@);
    let mut i: usize = 0;
    while i < tx.inputs.len()
        invariant
            tx.wf(),
            i <= tx.inputs@.len(),
            r@ == cpl + spend_payload(tx.inputs@.take(i as int)),
        decreases tx.inputs@.len() - i,
    {
        let s = &tx.inputs[i];
        push_bytes(&mut r, &s.nullifier.repr);
        push_bytes(&mut r, &s.merkle_root);
        push_bytes(&mut r, &s.value_commit);
        push_bytes(&mut r, &s.asset_commit);
        proof {
            let pre = tx.inputs@.take(i as int);
            let cur = tx.inputs@.take(i + 1);
            assert(cur.drop_last() =~= pre);
            assert(cur.last() == tx.inputs@[i as int]);
            assert(r@ =~= cpl + (spend_payload(pre) + spend_payload_one(cur.last())));
        }
        i += 1;
    }
    proof {
        assert(tx.inputs@.take(tx.inputs@.len() as int) =~= tx.inputs@);
    }
    let ghost spl = spend_payload(tx.inputs@);
    let mut i: usize = 0;
    while i < tx.outputs.len()
        invariant
            tx.wf(),
            i <= tx.outputs@.len(),
            r@ == cpl + spl + output_payload(tx.outputs@.take(i as int)),
        decreases tx.outputs@.len() - i,
    {
        let o = &tx.outputs[i];
        push_bytes(&mut r, &o.coin.repr);
        push_bytes(&mut r, &o.value_commit);
        push_bytes(&mut r, &o.asset_commit);
        proof {
            let pre = tx.outputs@.take(i as int);
            let cur = tx.outputs@.take(i + 1);
            assert(cur.drop_last() =~= pre);
            assert(cur.last() == tx.outputs@[i as int]);
            assert(r@ =~= cpl + spl + (output_payload(pre) + output_payload_one(cur.last())));
        }
        i += 1;
    }
    proof {
        assert(tx.outputs@.take(tx.outputs@.len() as int) =~= tx.outputs@);
        assert(r@ =~= tx_payload(*tx));
    }
    r
}


/// A clear input to build: its public value and the cashier secret that
/// will vouch for it.
pub struct TransactionBuilderClearInputInfo {
    pub value: u64,
    pub asset_id: Vec<u8>,
    pub signature_secret: Vec<u8>,
}

/// A coin to spend: the note, the owner secret, and a current
/// authentication path for the coin.
pub struct TransactionBuilderInputInfo {
    pub merkle_path: MerklePath,
    pub secret: Vec<u8>,
    pub note: Note,
}

/// An output to create: amount, asset and recipient.
pub struct TransactionBuilderOutputInfo {
    pub value: u64,
    pub asset_id: Vec<u8>,
    pub public: Vec<u8>,
}

/// The fresh secrets one output consumes.
pub struct OutputSecrets {
    pub serial: Vec<u8>,
    pub coin_randomness: Vec<u8>,
    pub value_randomness: Vec<u8>,
    pub asset_randomness: Vec<u8>,
    pub ephem_secret: Vec<u8>,
}

/// The fresh secrets one spend input consumes.
pub struct InputSecrets {
    pub value_randomness: Vec<u8>,
    pub asset_randomness: Vec<u8>,
    pub signature_nonce: Vec<u8>,
}

/// Assembles a transaction from spend inputs, clear inputs and outputs.
pub struct TransactionBuilder {
    pub clear_inputs: Vec<TransactionBuilderClearInputInfo>,
    pub inputs: Vec<TransactionBuilderInputInfo>,
    pub outputs: Vec<TransactionBuilderOutputInfo>,
}

impl TransactionBuilder {
    pub open spec fn wf(&self) -> bool {
        &&& forall|i: int| 0 <= i < self.clear_inputs@.len() ==> {
            let c = #[trigger] self.clear_inputs@[i];
            c.asset_id@.len() == 32 && c.signature_secret@.len() == 32
        }
        &&& forall|i: int| 0 <= i < self.inputs@.len() ==> {
            let inp = #[trigger] self.inputs@[i];
            inp.merkle_path.wf() && inp.secret@.len() == 32 && inp.note.wf()
        }
        &&& forall|i: int| 0 <= i < self.outputs@.len() ==> {
            let o = #[trigger] self.outputs@[i];
            o.asset_id@.len() == 32 && o.public@.len() == 32
        }
    }

    /// The domain every build input must lie in: canonical scalars for
    /// the secrets, blinds and nonces that feed scalar arithmetic, and
    /// canonical prime-order points for the recipient keys. The last
    /// output's blinds are computed, not consumed, so they are exempt.
    pub open spec fn builds_ok(
        &self,
        clear_nonces: Seq<Vec<u8>>,
        in_secrets: Seq<InputSecrets>,
        out_secrets: Seq<OutputSecrets>,
    ) -> bool {
        &&& forall|i: int| 0 <= i < self.clear_inputs@.len() ==> is_fr(
            (#[trigger] self.clear_inputs@[i]).signature_secret@,
        )
        &&& forall|i: int| 0 <= i < clear_nonces.len() ==> is_fr((#[trigger] clear_nonces[i])@)
        &&& forall|i: int| 0 <= i < self.inputs@.len() ==> is_fr(
            (#[trigger] self.inputs@[i]).secret@,
        ) && is_fr(self.inputs@[i].note.asset_id@)
        &&& forall|i: int| 0 <= i < in_secrets.len() ==> is_fr(
            (#[trigger] in_secrets[i]).value_randomness@,
        ) && is_fr(in_secrets[i].asset_randomness@) && is_fr(in_secrets[i].signature_nonce@)
        &&& forall|i: int| 0 <= i < self.outputs@.len() ==> is_fr(
            (#[trigger] self.outputs@[i]).asset_id@,
        ) && crate::curve::is_point(self.outputs@[i].public@)
        &&& forall|i: int| 0 <= i < out_secrets.len() ==> is_fr(
            (#[trigger] out_secrets[i]).ephem_secret@,
        )
        &&& forall|i: int| 0 <= i < out_secrets.len() && i + 1 < out_secrets.len() ==> is_fr(
            (#[trigger] out_secrets[i]).value_randomness@,
        ) && is_fr(out_secrets[i].asset_randomness@)
    }

    /// Builds the transaction: every spend re-derives its coin, walks
    /// its path to the root it proves membership under, and exposes its
    /// nullifier; every output commits to its value and asset, forms
    /// its coin, and encrypts the note to its recipient under a fresh
    /// ephemeral key. The blinding scalars of the last output are
    /// chosen so the commitment sums balance against the inputs. The
    /// proof blobs stay empty: attaching them is the proving backend's
    /// job. Succeeds exactly when every consumed secret, nonce, blind
    /// and key lies in its domain (`builds_ok`).
    #[verifier::loop_isolation(false)]
    pub fn build(
        &self,
        gens: &PedersenGens,
        clear_nonces: &Vec<Vec<u8>>,
        in_secrets: &Vec<InputSecrets>,
        out_secrets: &Vec<OutputSecrets>,
    ) -> (r: Result<Transaction, Error>)
        requires
            self.wf(),
            gens.wf(),
            self.clear_inputs@.len() + self.inputs@.len() <= usize::MAX,
            clear_nonces@.len() == self.clear_inputs@.len(),
            in_secrets@.len() == self.inputs@.len(),
            out_secrets@.len() == self.outputs@.len(),
            forall|i: int| 0 <= i < clear_nonces@.len() ==> (#[trigger] clear_nonces@[i])@.len()
                == 32,
            forall|i: int| 0 <= i < in_secrets@.len() ==> {
                let sc = #[trigger] in_secrets@[i];
                sc.value_randomness@.len() == 32 && sc.asset_randomness@.len() == 32
                    && sc.signature_nonce@.len() == 32
            },
            forall|i: int| 0 <= i < out_secrets@.len() ==> {
                let sc = #[trigger] out_secrets@[i];
                sc.serial@.len() == 32 && sc.coin_randomness@.len() == 32
                    && sc.value_randomness@.len() == 32 && sc.asset_randomness@.len() == 32
                    && sc.ephem_secret@.len() == 32
            },
        ensures
            r matches Ok(t) ==> {
                &&& t.wf()
                &&& t.clear_inputs@.len() == self.clear_inputs@.len()
                &&& t.inputs@.len() == self.inputs@.len()
                &&& t.outputs@.len() == self.outputs@.len()
                &&& forall|i: int| 0 <= i < t.clear_inputs@.len() ==> {
                    let c = #[trigger] t.clear_inputs@[i];
                    c.value == self.clear_inputs@[i].value && c.asset_id@
                        == self.clear_inputs@[i].asset_id@ && c.signature_public@ == pk_of(
                        self.clear_inputs@[i].signature_secret@,
                    )
                }
                &&& forall|i: int| 0 <= i < t.inputs@.len() ==> {
                    let s = #[trigger] t.inputs@[i];
                    s.nullifier.repr@ == nullifier_of(
                        self.inputs@[i].secret@,
                        self.inputs@[i].note.serial@,
                    ) && s.merkle_root@ == self.inputs@[i].merkle_path.spec_root_for(
                        coin_of(self.inputs@[i].note),
                    ) && s.value_commit@ == commit_spec(
                        *gens,
                        self.inputs@[i].note.value,
                        in_secrets@[i].value_randomness@,
                    ) && s.signature_public@ == pk_of(self.inputs@[i].secret@)
                }
                &&& forall|i: int| 0 <= i < t.outputs@.len() ==> {
                    let o = #[trigger] t.outputs@[i];
                    exists|n: Note|
                        o.coin.repr@ == coin_of(n) && n.value == self.outputs@[i].value
                            && n.asset_id@ == self.outputs@[i].asset_id@
                            && n.owner_public_key@ == self.outputs@[i].public@ && n.serial@
                            == out_secrets@[i].serial@ && n.coin_randomness@
                            == out_secrets@[i].coin_randomness@ && o.enc_note.ciphertext@
                            == crate::note::cipher_of(
                            crate::note::note_bytes(n),
                            crate::note::note_key(
                                crate::curve::pt_mul(
                                    out_secrets@[i].ephem_secret@,
                                    self.outputs@[i].public@,
                                ),
                            ),
                        ) && o.enc_note.ephem_public@ == pk_of(out_secrets@[i].ephem_secret@)
                }
            },
            r matches Err(e) ==> e == Error::MalformedTransaction,
            r is Ok <==> self.builds_ok(clear_nonces@, in_secrets@, out_secrets@),
    {
        let ghost ok = self.builds_ok(clear_nonces@, in_secrets@, out_secrets@);
        // Spend inputs: evaluate the spend circuit on each witness.
        let mut spends: Vec<SpendInput> = Vec::new();
        let mut i: usize = 0;
        while i < self.inputs.len()
            invariant
                i <= self.inputs@.len(),
                spends@.len() == i,
                forall|k: int| 0 <= k < i ==> {
                    let s = #[trigger] spends@[k];
                    s.wf() && s.nullifier.repr@ == nullifier_of(
                        self.inputs@[k].secret@,
                        self.inputs@[k].note.serial@,
                    ) && s.merkle_root@ == self.inputs@[k].merkle_path.spec_root_for(
                        coin_of(self.inputs@[k].note),
                    ) && s.value_commit@ == commit_spec(
                        *gens,
                        self.inputs@[k].note.value,
                        in_secrets@[k].value_randomness@,
                    ) && s.signature_public@ == pk_of(self.inputs@[k].secret@)
                },
                forall|k: int| 0 <= k < i ==> is_fr((#[trigger] self.inputs@[k]).secret@)
                    && is_fr(self.inputs@[k].note.asset_id@),
                forall|k: int| 0 <= k < i ==> is_fr(
                    (#[trigger] in_secrets@[k]).value_randomness@,
                ) && is_fr(in_secrets@[k].asset_randomness@),
            decreases self.inputs@.len() - i,
        {
            let inp = &self.inputs[i];
            let sc = &in_secrets[i];
            let witness = SpendContract {
                note: Some(
                    Note {
                        value: inp.note.value,
                        asset_id: clone_bytes(&inp.note.asset_id),
                        owner_public_key: clone_bytes(&inp.note.owner_public_key),
                        serial: clone_bytes(&inp.note.serial),
                        value_randomness: clone_bytes(&inp.note.value_randomness),
                        asset_randomness: clone_bytes(&inp.note.asset_randomness),
                        coin_randomness: clone_bytes(&inp.note.coin_randomness),
                    },
                ),
                secret: Some(clone_bytes(&inp.secret)),
                randomness_value: Some(clone_bytes(&sc.value_randomness)),
                randomness_asset: Some(clone_bytes(&sc.asset_randomness)),
                path: Some(
                    MerklePath {
                        siblings: clone_vecs(&inp.merkle_path.siblings),
                        position: inp.merkle_path.position,
                    },
                ),
            };
            proof {
                assert(witness.note->Some_0.wf());
                assert(crate::note::coin_preimage(witness.note->Some_0)
                    =~= crate::note::coin_preimage(self.inputs@[i as int].note));
                assert(crate::merkle::seqs_of(witness.path->Some_0.siblings@)
                    =~= crate::merkle::seqs_of(self.inputs@[i as int].merkle_path.siblings@));
            }
            let publics = match witness.synthesize(gens) {
                Some(p) => p,
                None => {
                    proof {
                        if ok {
                            assert(is_fr(self.inputs@[i as int].secret@) && is_fr(
                                self.inputs@[i as int].note.asset_id@,
                            ));
                            assert(is_fr(in_secrets@[i as int].value_randomness@) && is_fr(
                                in_secrets@[i as int].asset_randomness@,
                            ));
                            assert(witness.witness_ok());
                        }
                        assert(!ok);
                    }
                    return Err(Error::MalformedTransaction);
                },
            };
            let signature_public = match crate::curve::derive_public(&inp.secret) {
                Some(p) => p,
                None => {
                    proof {
                        assert(false);
                    }
                    return Err(Error::MalformedTransaction);
                },
            };
            spends.push(
                SpendInput {
                    proof: Vec::new(),
                    value_commit: publics.value_commit,
                    asset_commit: publics.asset_commit,
                    nullifier: publics.nullifier,
                    merkle_root: publics.merkle_root,
                    signature_public,
                    signature: empty_signature(),
                },
            );
            i += 1;
        }

        // Clear inputs: the cashier key each one will be signed under.
        let mut clears: Vec<ClearInput> = Vec::new();
        let mut i: usize = 0;
        while i < self.clear_inputs.len()
            invariant
                i <= self.clear_inputs@.len(),
                clears@.len() == i,
                forall|k: int| 0 <= k < i ==> {
                    let c = #[trigger] clears@[k];
                    c.wf() && c.value == self.clear_inputs@[k].value && c.asset_id@
                        == self.clear_inputs@[k].asset_id@ && c.signature_public@ == pk_of(
                        self.clear_inputs@[k].signature_secret@,
                    )
                },
                forall|k: int| 0 <= k < i ==> is_fr(
                    (#[trigger] self.clear_inputs@[k]).signature_secret@,
                ),
            decreases self.clear_inputs@.len() - i,
        {
            let ci = &self.clear_inputs[i];
            let signature_public = match crate::curve::derive_public(&ci.signature_secret) {
                Some(p) => p,
                None => {
                    proof {
                        if ok {
                            assert(is_fr(self.clear_inputs@[i as int].signature_secret@));
                        }
                        assert(!ok);
                    }
                    return Err(Error::MalformedTransaction);
                },
            };
            clears.push(
                ClearInput {
                    value: ci.value,
                    asset_id: clone_bytes(&ci.asset_id),
                    signature_public,
                    signature: empty_signature(),
                },
            );
            i += 1;
        }

        // Outputs: the last one's blinding scalars are set to balance
        // the conservation equations; the inputs' blinds are summed
        // first. Values compare as plain sums; assets compare as
        // count-scaled sums, so the output asset blinds must total
        // `n_out * sum_in_ar / n_lhs`.
        let mut sum_vr = fr_from_u64(0);
        let mut sum_ar = fr_from_u64(0);
        let mut i: usize = 0;
        while i < in_secrets.len()
            invariant
                i <= in_secrets@.len(),
                is_fr(sum_vr@) && sum_vr@.len() == 32,
                is_fr(sum_ar@) && sum_ar@.len() == 32,
            decreases in_secrets@.len() - i,
        {
            let sc = &in_secrets[i];
            sum_vr = match fr_add_exec(&sum_vr, &sc.value_randomness) {
                Some(v) => v,
                None => {
                    proof {
                        assert(false);
                    }
                    return Err(Error::MalformedTransaction);
                },
            };
            sum_ar = match fr_add_exec(&sum_ar, &sc.asset_randomness) {
                Some(v) => v,
                None => {
                    proof {
                        assert(false);
                    }
                    return Err(Error::MalformedTransaction);
                },
            };
            i += 1;
        }
        let n_lhs: usize = self.clear_inputs.len() + self.inputs.len();
        if n_lhs > 0 && self.outputs.len() > 0 {
            let inv = match fr_inv_exec(&fr_from_u64(n_lhs as u64)) {
                Some(v) => v,
                None => {
                    // A positive count is a non-zero scalar.
                    proof {
                        if crate::curve::fr_of_u64(n_lhs as u64) == crate::curve::fr_of_u64(
                            0,
                        ) {
                            assert(u64_le_bytes(n_lhs as u64) =~= crate::curve::fr_of_u64(
                                n_lhs as u64,
                            ).take(8));
                            assert(u64_le_bytes(0u64) =~= crate::curve::fr_of_u64(0).take(8));
                            lemma_u64_le_round_trip(n_lhs as u64, 0u64);
                        }
                        assert(false);
                    }
                    return Err(Error::MalformedTransaction);
                },
            };
            let scaled = match fr_mul_exec(&fr_from_u64(self.outputs.len() as u64), &sum_ar) {
                Some(v) => v,
                None => {
                    proof {
                        assert(false);
                    }
                    return Err(Error::MalformedTransaction);
                },
            };
            sum_ar = match fr_mul_exec(&scaled, &inv) {
                Some(v) => v,
                None => {
                    proof {
                        assert(false);
                    }
                    return Err(Error::MalformedTransaction);
                },
            };
        }
        let mut outputs: Vec<Output> = Vec::new();
        let mut i: usize = 0;
        while i < self.outputs.len()
            invariant
                i <= self.outputs@.len(),
                outputs@.len() == i,
                is_fr(sum_vr@) && sum_vr@.len() == 32,
                is_fr(sum_ar@) && sum_ar@.len() == 32,
                forall|k: int| 0 <= k < i ==> {
                    let o = #[trigger] outputs@[k];
                    o.wf() && exists|n: Note|
                        o.coin.repr@ == coin_of(n) && n.value == self.outputs@[k].value
                            && n.asset_id@ == self.outputs@[k].asset_id@
                            && n.owner_public_key@ == self.outputs@[k].public@ && n.serial@
                            == out_secrets@[k].serial@ && n.coin_randomness@
                            == out_secrets@[k].coin_randomness@ && o.enc_note.ciphertext@
                            == crate::note::cipher_of(
                            crate::note::note_bytes(n),
                            crate::note::note_key(
                                crate::curve::pt_mul(
                                    out_secrets@[k].ephem_secret@,
                                    self.outputs@[k].public@,
                                ),
                            ),
                        ) && o.enc_note.ephem_public@ == pk_of(out_secrets@[k].ephem_secret@)
                },
                forall|k: int| 0 <= k < i ==> is_fr((#[trigger] self.outputs@[k]).asset_id@)
                    && crate::curve::is_point(self.outputs@[k].public@),
                forall|k: int| 0 <= k < i ==> is_fr((#[trigger] out_secrets@[k]).ephem_secret@),
                forall|k: int| 0 <= k < i && k + 1 < out_secrets@.len() ==> is_fr(
                    (#[trigger] out_secrets@[k]).value_randomness@,
                ) && is_fr(out_secrets@[k].asset_randomness@),
            decreases self.outputs@.len() - i,
        {
            let oi = &self.outputs[i];
            let sc = &out_secrets[i];
            let last = i + 1 == self.outputs.len();
            let vr: Vec<u8>;
            let ar: Vec<u8>;
            if last {
                vr = match fr_sub_exec(&sum_vr, &fr_from_u64(0)) {
                    Some(v) => v,
                    None => {
                        proof {
                            assert(false);
                        }
                        return Err(Error::MalformedTransaction);
                    },
                };
                ar = match fr_sub_exec(&sum_ar, &fr_from_u64(0)) {
                    Some(v) => v,
                    None => {
                        proof {
                            assert(false);
                        }
                        return Err(Error::MalformedTransaction);
                    },
                };
            } else {
                vr = clone_bytes(&sc.value_randomness);
                ar = clone_bytes(&sc.asset_randomness);
                sum_vr = match fr_sub_exec(&sum_vr, &sc.value_randomness) {
                    Some(v) => v,
                    None => {
                        proof {
                            if ok {
                                assert(is_fr(out_secrets@[i as int].value_randomness@));
                            }
                            assert(!ok);
                        }
                        return Err(Error::MalformedTransaction);
                    },
                };
                sum_ar = match fr_sub_exec(&sum_ar, &sc.asset_randomness) {
                    Some(v) => v,
                    None => {
                        proof {
                            if ok {
                                assert(is_fr(out_secrets@[i as int].asset_randomness@));
                            }
                            assert(!ok);
                        }
                        return Err(Error::MalformedTransaction);
                    },
                };
            }
            if vr.len() != 32 || ar.len() != 32 {
                proof {
                    assert(false);
                }
                return Err(Error::MalformedTransaction);
            }
            let note = Note {
                value: oi.value,
                asset_id: clone_bytes(&oi.asset_id),
                owner_public_key: clone_bytes(&oi.public),
                serial: clone_bytes(&sc.serial),
                value_randomness: vr,
                asset_randomness: ar,
                coin_randomness: clone_bytes(&sc.coin_randomness),
            };
            let coin = coin_commitment(&note);
            let value_commit = match pedersen_commit(gens, oi.value, &note.value_randomness) {
                Some(c) => c,
                None => {
                    proof {
                        assert(false);
                    }
                    return Err(Error::MalformedTransaction);
                },
            };
            let asset_c = match asset_commit(gens, &oi.asset_id, &note.asset_randomness) {
                Some(c) => c,
                None => {
                    proof {
                        if ok {
                            assert(is_fr(self.outputs@[i as int].asset_id@));
                        }
                        assert(!ok);
                    }
                    return Err(Error::MalformedTransaction);
                },
            };
            let enc_note = match encrypt_note(&note, &sc.ephem_secret, &oi.public) {
                Some(e) => e,
                None => {
                    proof {
                        if ok {
                            assert(is_fr(out_secrets@[i as int].ephem_secret@)
                                && crate::curve::is_point(self.outputs@[i as int].public@));
                        }
                        assert(!ok);
                    }
                    return Err(Error::MalformedTransaction);
                },
            };
            let ghost note_g = note;
            outputs.push(
                Output {
                    proof: Vec::new(),
                    value_commit,
                    asset_commit: asset_c,
                    coin,
                    enc_note,
                },
            );
            proof {
                assert(outputs@[i as int].coin.repr@ == coin_of(note_g));
            }
            i += 1;
        }

        // Sign: every signature covers the public payload, which does
        // not include the signatures themselves.
        let tx0 = Transaction { clear_inputs: clears, inputs: spends, outputs };
        let payload = build_payload(&tx0);
        let mut clears2: Vec<ClearInput> = Vec::new();
        let mut i: usize = 0;
        while i < tx0.clear_inputs.len()
            invariant
                i <= tx0.clear_inputs@.len(),
                clears2@.len() == i,
                tx0.wf(),
                tx0.clear_inputs@.len() == self.clear_inputs@.len(),
                forall|k: int| 0 <= k < tx0.clear_inputs@.len() ==> {
                    let c = #[trigger] tx0.clear_inputs@[k];
                    c.value == self.clear_inputs@[k].value && c.asset_id@
                        == self.clear_inputs@[k].asset_id@ && c.signature_public@ == pk_of(
                        self.clear_inputs@[k].signature_secret@,
                    )
                },
                forall|k: int| 0 <= k < i ==> {
                    let c = #[trigger] clears2@[k];
                    c.wf() && c.value == self.clear_inputs@[k].value && c.asset_id@
                        == self.clear_inputs@[k].asset_id@ && c.signature_public@ == pk_of(
                        self.clear_inputs@[k].signature_secret@,
                    )
                },
                forall|k: int| 0 <= k < i ==> is_fr((#[trigger] clear_nonces@[k])@),
            decreases tx0.clear_inputs@.len() - i,
        {
            let c = &tx0.clear_inputs[i];
            let sig = match sign(&self.clear_inputs[i].signature_secret, &clear_nonces[i], &payload)
            {
                Some(s) => s,
                None => {
                    proof {
                        if ok {
                            assert(is_fr(clear_nonces@[i as int]@));
                        }
                        assert(!ok);
                    }
                    return Err(Error::MalformedTransaction);
                },
            };
            clears2.push(
                ClearInput {
                    value: c.value,
                    asset_id: clone_bytes(&c.asset_id),
                    signature_public: clone_bytes(&c.signature_public),
                    signature: sig,
                },
            );
            i += 1;
        }
        let mut spends2: Vec<SpendInput> = Vec::new();
        let mut i: usize = 0;
        while i < tx0.inputs.len()
            invariant
                i <= tx0.inputs@.len(),
                spends2@.len() == i,
                tx0.wf(),
                tx0.inputs@.len() == self.inputs@.len(),
                forall|k: int| 0 <= k < tx0.inputs@.len() ==> {
                    let s = #[trigger] tx0.inputs@[k];
                    s.nullifier.repr@ == nullifier_of(
                        self.inputs@[k].secret@,
                        self.inputs@[k].note.serial@,
                    ) && s.merkle_root@ == self.inputs@[k].merkle_path.spec_root_for(
                        coin_of(self.inputs@[k].note),
                    ) && s.value_commit@ == commit_spec(
                        *gens,
                        self.inputs@[k].note.value,
                        in_secrets@[k].value_randomness@,
                    ) && s.signature_public@ == pk_of(self.inputs@[k].secret@)
                },
                forall|k: int| 0 <= k < i ==> {
                    let s = #[trigger] spends2@[k];
                    s.wf() && s.nullifier.repr@ == nullifier_of(
                        self.inputs@[k].secret@,
                        self.inputs@[k].note.serial@,
                    ) && s.merkle_root@ == self.inputs@[k].merkle_path.spec_root_for(
                        coin_of(self.inputs@[k].note),
                    ) && s.value_commit@ == commit_spec(
                        *gens,
                        self.inputs@[k].note.value,
                        in_secrets@[k].value_randomness@,
                    ) && s.signature_public@ == pk_of(self.inputs@[k].secret@)
                },
                forall|k: int| 0 <= k < i ==> is_fr(
                    (#[trigger] in_secrets@[k]).signature_nonce@,
                ),
            decreases tx0.inputs@.len() - i,
        {
            let s = &tx0.inputs[i];
            let sig = match sign(&self.inputs[i].secret, &in_secrets[i].signature_nonce, &payload) {
                Some(s) => s,
                None => {
                    proof {
                        if ok {
                            assert(is_fr(in_secrets@[i as int].signature_nonce@));
                        }
                        assert(!ok);
                    }
                    return Err(Error::MalformedTransaction);
                },
            };
            spends2.push(
                SpendInput {
                    proof: Vec::new(),
                    value_commit: clone_bytes(&s.value_commit),
                    asset_commit: clone_bytes(&s.asset_commit),
                    nullifier: Nullifier { repr: clone_bytes(&s.nullifier.repr) },
                    merkle_root: clone_bytes(&s.merkle_root),
                    signature_public: clone_bytes(&s.signature_public),
                    signature: sig,
                },
            );
            i += 1;
        }
        proof {
            assert(ok);
        }
        let Transaction { clear_inputs: _, inputs: _, outputs } = tx0;
        Ok(Transaction { clear_inputs: clears2, inputs: spends2, outputs })
    }
}

/// A placeholder signature, replaced once the payload is fixed.
fn empty_signature() -> (r: Signature)
    ensures
        r.wf(),
{
    let mut a: Vec<u8> = Vec::new();
    let mut b: Vec<u8> = Vec::new();
    let mut i: usize = 0;
    while i < 32
        invariant
            i <= 32,
            a@.len() == i,
            b@.len() == i,
        decreases 32 - i,
    {
        a.push(0u8);
        b.push(0u8);
        i += 1;
    }
    Signature { nonce_point: a, response: b }
}

/// Copy of a vector of byte vectors, element views preserved.
fn clone_vecs(v: &Vec<Vec<u8>>) -> (r: Vec<Vec<u8>>)
    ensures
        r@.len() == v@.len(),
        forall|i: int| 0 <= i < v@.len() ==> (#[trigger] r@[i])@ == v@[i]@,
{
    let mut r: Vec<Vec<u8>> = Vec::new();
    let mut i: usize = 0;
    while i < v.len()
        invariant
            i <= v@.len(),
            r@.len() == i,
            forall|j: int| 0 <= j < i ==> (#[trigger] r@[j])@ == v@[j]@,
        decreases v@.len() - i,
    {
        r.push(clone_bytes(&v[i]));
        i += 1;
    }
    r
}


/// The checks a wallet makes before building a transfer: a zero amount
/// is refused, and so is a wallet that owns no coin to spend.
pub fn validate_transfer_request(amount: u64, owned_coins: u64) -> (r: Result<(), Error>)
    ensures
        r matches Ok(()) <==> (amount > 0 && owned_coins > 0),
        r == Result::<(), Error>::Err(Error::InvalidAmount) <==> amount == 0,
        r == Result::<(), Error>::Err(Error::NotEnoughValue) <==> (amount > 0 && owned_coins
            == 0),
{
    if amount == 0 {
        return Err(Error::InvalidAmount);
    }
    if owned_coins == 0 {
        return Err(Error::NotEnoughValue);
    }
    Ok(())
}

} // verus!
