use bellman::gadgets::multipack;
use bellman::groth16;
use bellman::{Circuit, ConstraintSystem, SynthesisError};
use bls12_381::{Bls12, Scalar};
use group::Group;

use darkfi::circuit::VerifyingKey;
use darkfi::curve::{public_key_of, PedersenGens};
use darkfi::merkle::{CommitmentTree, IncrementalWitness};
use darkfi::note::{Coin, EncryptedNote, Note, Nullifier};
use darkfi::state::{state_transition, State, StateUpdate};
use darkfi::tx::{
    InputSecrets, Output, OutputSecrets, SpendInput, Transaction, TransactionBuilder,
    TransactionBuilderClearInputInfo, TransactionBuilderInputInfo, TransactionBuilderOutputInfo,
};
use darkfi::Error;
use darkfi::sync::{ConsensusRequest, ConsensusResponse, ProtocolSyncConsensus};

/// A placeholder circuit with a fixed number of public inputs; its
/// proofs verify against any values those inputs take, which lets the
/// tests drive the engine's post-proof logic with real pairing checks.
struct DummyCircuit {
    vals: Vec<Scalar>,
}

impl Circuit<Scalar> for DummyCircuit {
    fn synthesize<CS: ConstraintSystem<Scalar>>(self, cs: &mut CS) -> Result<(), SynthesisError> {
        for (i, v) in self.vals.iter().enumerate() {
            cs.alloc_input(|| format!("in {}", i), || Ok(*v))?;
        }
        let one = cs.alloc(|| "aux", || Ok(Scalar::one()))?;
        cs.enforce(|| "aux stays", |lc| lc + one, |lc| lc + CS::one(), |lc| lc + one);
        Ok(())
    }
}

fn dummy_params(n_inputs: usize) -> groth16::Parameters<Bls12> {
    groth16::generate_parameters(
        DummyCircuit { vals: vec![Scalar::zero(); n_inputs] },
        bls12_381::G1Projective::generator(),
        bls12_381::G2Projective::generator(),
        Scalar::from(2),
        Scalar::from(3),
        Scalar::from(4),
        Scalar::from(5),
        Scalar::from(6),
    )
    .expect("setup")
}

fn vk_of(params: &groth16::Parameters<Bls12>) -> VerifyingKey {
    let mut bytes = vec![];
    params.vk.write(&mut bytes).expect("serialize vk");
    VerifyingKey::from_bytes(&bytes).expect("read vk back")
}

fn prove(params: &groth16::Parameters<Bls12>, vals: Vec<Scalar>) -> Vec<u8> {
    let proof = groth16::create_proof(
        DummyCircuit { vals },
        params,
        Scalar::from(7),
        Scalar::from(8),
    )
    .expect("prove");
    let mut bytes = vec![];
    proof.write(&mut bytes).expect("serialize proof");
    bytes
}

fn point_uv(enc: &[u8]) -> (Scalar, Scalar) {
    let mut b = [0u8; 32];
    b.copy_from_slice(enc);
    let p = Option::<jubjub::AffinePoint>::from(jubjub::AffinePoint::from_bytes(b))
        .expect("commitment decodes");
    (p.get_u(), p.get_v())
}

fn mint_inputs(o: &Output) -> Vec<Scalar> {
    let (u1, v1) = point_uv(&o.value_commit);
    let (u2, v2) = point_uv(&o.asset_commit);
    let mut inputs = vec![u1, v1, u2, v2];
    inputs.extend(multipack::compute_multipacking::<Scalar>(&multipack::bytes_to_bits_le(
        &o.coin.repr,
    )));
    inputs
}

fn spend_inputs(s: &SpendInput) -> Vec<Scalar> {
    let (u1, v1) = point_uv(&s.value_commit);
    let (u2, v2) = point_uv(&s.asset_commit);
    let mut inputs = vec![u1, v1, u2, v2];
    let mut bits = multipack::bytes_to_bits_le(&s.nullifier.repr);
    bits.extend(multipack::bytes_to_bits_le(&s.merkle_root));
    inputs.extend(multipack::compute_multipacking::<Scalar>(&bits));
    inputs
}

const MINT_INPUTS: usize = 6;
const SPEND_INPUTS: usize = 7;

fn attach_proofs(
    tx: &mut Transaction,
    mint_params: &groth16::Parameters<Bls12>,
    spend_params: &groth16::Parameters<Bls12>,
) {
    for o in tx.outputs.iter_mut() {
        o.proof = prove(mint_params, mint_inputs(o));
    }
    for s in tx.inputs.iter_mut() {
        s.proof = prove(spend_params, spend_inputs(s));
    }
}

fn sc(tag: u64) -> Vec<u8> {
    let mut b = vec![0u8; 32];
    b[..8].copy_from_slice(&tag.to_le_bytes());
    b
}

fn out_secrets(tag: u64) -> OutputSecrets {
    OutputSecrets {
        serial: sc(1000 + tag),
        coin_randomness: sc(2000 + tag),
        value_randomness: sc(3000 + tag),
        asset_randomness: sc(4000 + tag),
        ephem_secret: sc(5000 + tag),
    }
}

fn in_secrets(tag: u64) -> InputSecrets {
    InputSecrets {
        value_randomness: sc(6000 + tag),
        asset_randomness: sc(7000 + tag),
        signature_nonce: sc(8000 + tag),
    }
}

struct Setup {
    state: State,
    gens: PedersenGens,
    mint_params: groth16::Parameters<Bls12>,
    spend_params: groth16::Parameters<Bls12>,
}

fn fresh_setup(cashier_secret: u64) -> Setup {
    let mint_params = dummy_params(MINT_INPUTS);
    let spend_params = dummy_params(SPEND_INPUTS);
    let cashier_pk = public_key_of(&sc(cashier_secret)).unwrap();
    let state = State::new(
        PedersenGens::setup().unwrap(),
        vk_of(&mint_params),
        vk_of(&spend_params),
        vec![cashier_pk],
    );
    Setup { state, gens: PedersenGens::setup().unwrap(), mint_params, spend_params }
}

/// Mints a coin of `value` to the owner of `owner_secret` through the
/// full verify-and-apply path, and returns the update.
fn mint_coin(s: &mut Setup, cashier_secret: u64, owner_secret: u64, value: u64) -> StateUpdate {
    let owner_pk = public_key_of(&sc(owner_secret)).unwrap();
    let builder = TransactionBuilder {
        clear_inputs: vec![TransactionBuilderClearInputInfo {
            value,
            asset_id: sc(1),
            signature_secret: sc(cashier_secret),
        }],
        inputs: vec![],
        outputs: vec![TransactionBuilderOutputInfo {
            value,
            asset_id: sc(1),
            public: owner_pk,
        }],
    };
    let mut tx = builder
        .build(&s.gens, &vec![sc(9000)], &vec![], &vec![out_secrets(1)])
        .expect("build mint");
    attach_proofs(&mut tx, &s.mint_params, &s.spend_params);
    let update = state_transition(&s.state, &tx).expect("mint accepted");
    s.state.apply(&update).expect("apply mint");
    update
}

fn spend_builder(
    owner_secret: u64,
    note: Note,
    witness: &IncrementalWitness,
    outputs: Vec<TransactionBuilderOutputInfo>,
) -> TransactionBuilder {
    TransactionBuilder {
        clear_inputs: vec![],
        inputs: vec![TransactionBuilderInputInfo {
            merkle_path: witness.path().expect("path"),
            secret: sc(owner_secret),
            note,
        }],
        outputs,
    }
}

#[test]
fn end_to_end_mint_then_spend() {
    let mut s = fresh_setup(7);
    let update = mint_coin(&mut s, 7, 42, 1000);
    assert_eq!(s.state.coin_count(), 1);

    // The recipient scans and decrypts its note.
    let note_a = s
        .state
        .try_decrypt_note(&sc(42), &update.enc_notes[0])
        .expect("owner decrypts");
    assert_eq!(note_a.value, 1000);

    // Witness the coin as of its insertion.
    let witness = IncrementalWitness::from_tree(s.state.tree()).expect("non-empty tree");

    // Spend it: 400 to a new key, 600 back as change.
    let pk_b = public_key_of(&sc(43)).unwrap();
    let pk_a = public_key_of(&sc(42)).unwrap();
    let builder = spend_builder(
        42,
        note_a,
        &witness,
        vec![
            TransactionBuilderOutputInfo { value: 400, asset_id: sc(1), public: pk_b },
            TransactionBuilderOutputInfo { value: 600, asset_id: sc(1), public: pk_a },
        ],
    );
    let mut tx = builder
        .build(&s.gens, &vec![], &vec![in_secrets(1)], &vec![out_secrets(2), out_secrets(3)])
        .expect("build spend");
    attach_proofs(&mut tx, &s.mint_params, &s.spend_params);
    let nullifier = Nullifier { repr: tx.inputs[0].nullifier.repr.clone() };

    let update = state_transition(&s.state, &tx).expect("spend accepted");
    s.state.apply(&update).expect("apply spend");

    // The spent coin's nullifier now exists; two new coins are in the tree.
    assert!(s.state.nullifier_exists(&nullifier));
    assert_eq!(s.state.coin_count(), 3);

    // B decrypts exactly the 400 note, A exactly the 600 change.
    let note_b = s.state.try_decrypt_note(&sc(43), &update.enc_notes[0]).expect("B decrypts");
    assert_eq!(note_b.value, 400);
    assert!(s.state.try_decrypt_note(&sc(43), &update.enc_notes[1]).is_none());
    let change = s.state.try_decrypt_note(&sc(42), &update.enc_notes[1]).expect("A decrypts");
    assert_eq!(change.value, 600);
    assert!(s.state.try_decrypt_note(&sc(42), &update.enc_notes[0]).is_none());
}

#[test]
fn double_spend_in_one_batch_rejected() {
    let mut s = fresh_setup(7);
    mint_coin(&mut s, 7, 42, 1000);
    let note = Note {
        value: 1000,
        asset_id: sc(1),
        owner_public_key: public_key_of(&sc(42)).unwrap(),
        serial: sc(1001),
        value_randomness: sc(3001),
        asset_randomness: sc(4001),
        coin_randomness: sc(2001),
    };
    let witness = IncrementalWitness::from_tree(s.state.tree()).expect("tree");

    let pk_b = public_key_of(&sc(43)).unwrap();
    let pk_c = public_key_of(&sc(44)).unwrap();
    let note2 = Note {
        value: note.value,
        asset_id: note.asset_id.clone(),
        owner_public_key: note.owner_public_key.clone(),
        serial: note.serial.clone(),
        value_randomness: note.value_randomness.clone(),
        asset_randomness: note.asset_randomness.clone(),
        coin_randomness: note.coin_randomness.clone(),
    };
    let b1 = spend_builder(42, note, &witness, vec![TransactionBuilderOutputInfo {
        value: 1000,
        asset_id: sc(1),
        public: pk_b,
    }]);
    let b2 = spend_builder(42, note2, &witness, vec![TransactionBuilderOutputInfo {
        value: 1000,
        asset_id: sc(1),
        public: pk_c,
    }]);
    let mut t1 = b1
        .build(&s.gens, &vec![], &vec![in_secrets(1)], &vec![out_secrets(4)])
        .expect("build t1");
    let mut t2 = b2
        .build(&s.gens, &vec![], &vec![in_secrets(2)], &vec![out_secrets(5)])
        .expect("build t2");
    attach_proofs(&mut t1, &s.mint_params, &s.spend_params);
    attach_proofs(&mut t2, &s.mint_params, &s.spend_params);

    let outcomes = s.state.verify_transactions(&vec![t1, t2], true);
    assert_eq!(outcomes.len(), 2);
    assert!(outcomes[0].is_ok());
    match &outcomes[1] {
        Err(e) => assert_eq!(*e, Error::NullifierReused),
        Ok(_) => panic!("second spend of the same coin must be rejected"),
    }
}

#[test]
fn imbalanced_spend_rejected() {
    let mut s = fresh_setup(7);
    mint_coin(&mut s, 7, 42, 1000);
    let note = Note {
        value: 1000,
        asset_id: sc(1),
        owner_public_key: public_key_of(&sc(42)).unwrap(),
        serial: sc(1001),
        value_randomness: sc(3001),
        asset_randomness: sc(4001),
        coin_randomness: sc(2001),
    };
    let witness = IncrementalWitness::from_tree(s.state.tree()).expect("tree");
    let pk_b = public_key_of(&sc(43)).unwrap();
    // 400 + 500 != 1000: the commitment sums cannot match.
    let builder = spend_builder(
        42,
        note,
        &witness,
        vec![
            TransactionBuilderOutputInfo { value: 400, asset_id: sc(1), public: pk_b.clone() },
            TransactionBuilderOutputInfo { value: 500, asset_id: sc(1), public: pk_b },
        ],
    );
    let mut tx = builder
        .build(&s.gens, &vec![], &vec![in_secrets(1)], &vec![out_secrets(6), out_secrets(7)])
        .expect("build");
    attach_proofs(&mut tx, &s.mint_params, &s.spend_params);
    match state_transition(&s.state, &tx) {
        Err(e) => assert_eq!(e, Error::ValueImbalance),
        Ok(_) => panic!("imbalanced transaction must be rejected"),
    }
}

#[test]
fn unknown_root_rejected() {
    let mut s = fresh_setup(7);
    mint_coin(&mut s, 7, 42, 1000);
    // A coin recorded only in a private side tree: its root was never
    // part of the ledger history.
    let note = Note {
        value: 5,
        asset_id: sc(1),
        owner_public_key: public_key_of(&sc(50)).unwrap(),
        serial: sc(51),
        value_randomness: sc(52),
        asset_randomness: sc(53),
        coin_randomness: sc(54),
    };
    let coin = darkfi::note::coin_commitment(&note);
    let mut side_tree = CommitmentTree::empty();
    side_tree.append(&Coin { repr: coin.repr.clone() }.to_merkle_node()).unwrap();
    let witness = IncrementalWitness::from_tree(&side_tree).unwrap();
    let builder = spend_builder(50, note, &witness, vec![]);
    let mut tx = builder
        .build(&s.gens, &vec![], &vec![in_secrets(9)], &vec![])
        .expect("build");
    attach_proofs(&mut tx, &s.mint_params, &s.spend_params);
    match state_transition(&s.state, &tx) {
        Err(e) => assert_eq!(e, Error::UnknownRoot),
        Ok(_) => panic!("a spend against an unrecorded root must be rejected"),
    }
}

#[test]
fn tampered_signature_rejected() {
    let mut s = fresh_setup(7);
    let update = mint_coin(&mut s, 7, 42, 1000);
    let note = s.state.try_decrypt_note(&sc(42), &update.enc_notes[0]).expect("decrypt");
    let witness = IncrementalWitness::from_tree(s.state.tree()).expect("tree");
    let pk_b = public_key_of(&sc(43)).unwrap();
    let builder = spend_builder(42, note, &witness, vec![TransactionBuilderOutputInfo {
        value: 1000,
        asset_id: sc(1),
        public: pk_b,
    }]);
    let mut tx = builder
        .build(&s.gens, &vec![], &vec![in_secrets(1)], &vec![out_secrets(8)])
        .expect("build");
    attach_proofs(&mut tx, &s.mint_params, &s.spend_params);
    tx.inputs[0].signature.response = sc(0);
    match state_transition(&s.state, &tx) {
        Err(e) => assert_eq!(e, Error::InvalidSignature),
        Ok(_) => panic!("a tampered signature must be rejected"),
    }
}

#[test]
fn malformed_proof_rejected() {
    let mut s = fresh_setup(7);
    let owner_pk = public_key_of(&sc(42)).unwrap();
    let builder = TransactionBuilder {
        clear_inputs: vec![TransactionBuilderClearInputInfo {
            value: 10,
            asset_id: sc(1),
            signature_secret: sc(7),
        }],
        inputs: vec![],
        outputs: vec![TransactionBuilderOutputInfo { value: 10, asset_id: sc(1), public: owner_pk }],
    };
    // Proof blobs left empty: the backend cannot even parse them.
    let tx = builder
        .build(&s.gens, &vec![sc(9000)], &vec![], &vec![out_secrets(1)])
        .expect("build");
    match state_transition(&s.state, &tx) {
        Err(e) => assert_eq!(e, Error::MalformedProof),
        Ok(_) => panic!("an unparsable proof must be rejected"),
    }
}

#[test]
fn sync_responder_answers_state_queries() {
    let mut s = fresh_setup(7);
    let update = mint_coin(&mut s, 7, 42, 1000);
    let proto = ProtocolSyncConsensus::init();
    let root = s.state.tree().root().to_bytes();
    match proto.handle_receive_request(&s.state, &ConsensusRequest::MerkleRootKnown { root }) {
        ConsensusResponse::MerkleRootKnown { known } => assert!(known),
        _ => panic!("wrong response variant"),
    }
    match proto.handle_receive_request(
        &s.state,
        &ConsensusRequest::MerkleRootKnown { root: vec![9u8; 32] },
    ) {
        ConsensusResponse::MerkleRootKnown { known } => assert!(!known),
        _ => panic!("wrong response variant"),
    }
    let spent = update.nullifiers.len();
    assert_eq!(spent, 0);
    match proto.handle_receive_request(
        &s.state,
        &ConsensusRequest::NullifierSpent { nullifier: vec![1u8; 32] },
    ) {
        ConsensusResponse::NullifierSpent { spent } => assert!(!spent),
        _ => panic!("wrong response variant"),
    }
    match proto.handle_receive_request(&s.state, &ConsensusRequest::LedgerSummary) {
        ConsensusResponse::LedgerSummary { coins, roots } => {
            assert_eq!(coins, 1);
            assert_eq!(roots, 2);
        },
        _ => panic!("wrong response variant"),
    }
}
