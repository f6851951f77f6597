use darkfi::curve::{public_key_of, PedersenGens};
use darkfi::tx::{
    OutputSecrets, TransactionBuilder, TransactionBuilderClearInputInfo,
    TransactionBuilderOutputInfo,
};
use darkfi::Error;

fn sc(tag: u64) -> Vec<u8> {
    let mut b = vec![0u8; 32];
    b[..8].copy_from_slice(&tag.to_le_bytes());
    b
}

fn out_secrets(tag: u64) -> OutputSecrets {
    OutputSecrets {
        serial: sc(1000 + tag),
        coin_randomness: sc(2000 + tag),
        value_randomness: sc(3000 + tag),
        asset_randomness: sc(4000 + tag),
        ephem_secret: sc(5000 + tag),
    }
}

fn mint_builder(owner_pk: Vec<u8>) -> TransactionBuilder {
    TransactionBuilder {
        clear_inputs: vec![TransactionBuilderClearInputInfo {
            value: 10,
            asset_id: sc(1),
            signature_secret: sc(7),
        }],
        inputs: vec![],
        outputs: vec![TransactionBuilderOutputInfo { value: 10, asset_id: sc(1), public: owner_pk }],
    }
}

#[test]
fn built_transaction_is_well_formed() {
    let gens = PedersenGens::setup().unwrap();
    let owner_pk = public_key_of(&sc(42)).unwrap();
    let tx = mint_builder(owner_pk)
        .build(&gens, &vec![sc(9000)], &vec![], &vec![out_secrets(1)])
        .expect("canonical inputs build");
    assert!(tx.check_wf());
}

#[test]
fn check_wf_refuses_truncated_fields() {
    let gens = PedersenGens::setup().unwrap();
    let owner_pk = public_key_of(&sc(42)).unwrap();
    let mut tx = mint_builder(owner_pk)
        .build(&gens, &vec![sc(9000)], &vec![], &vec![out_secrets(1)])
        .expect("build");
    tx.outputs[0].value_commit = vec![0u8; 31];
    assert!(!tx.check_wf());
}

#[test]
fn builder_refuses_non_canonical_recipient() {
    let gens = PedersenGens::setup().unwrap();
    // 32 bytes that are no point encoding.
    let r = mint_builder(vec![0xffu8; 32]).build(
        &gens,
        &vec![sc(9000)],
        &vec![],
        &vec![out_secrets(1)],
    );
    match r {
        Err(e) => assert_eq!(e, Error::MalformedTransaction),
        Ok(_) => panic!("a non-canonical recipient key must be refused"),
    }
}

#[test]
fn builder_refuses_non_canonical_cashier_secret() {
    let gens = PedersenGens::setup().unwrap();
    let owner_pk = public_key_of(&sc(42)).unwrap();
    let mut b = mint_builder(owner_pk);
    b.clear_inputs[0].signature_secret = vec![0xffu8; 32];
    let r = b.build(&gens, &vec![sc(9000)], &vec![], &vec![out_secrets(1)]);
    match r {
        Err(e) => assert_eq!(e, Error::MalformedTransaction),
        Ok(_) => panic!("a non-canonical cashier secret must be refused"),
    }
}
