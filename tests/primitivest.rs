use chasm::add;
use chasm::primitives::transaction::{
    build_transaction, build_with_policy, canonical_bytes, digest_matches, encode_parts, validate,
    verify, Transaction, TxInput, TxOutput, ValidationError,
};
use sha2::Digest;

fn output(amount: u64, recipient: &str) -> TxOutput {
    TxOutput { amount, recipient: recipient.as_bytes().to_vec() }
}

fn input(fill: u8, index: u32) -> TxInput {
    TxInput { source_tx_hash: [fill; 32], source_output_index: index }
}

fn sha256(bytes: &[u8]) -> [u8; 32] {
    sha2::Sha256::digest(bytes).into()
}

fn alice_bytes() -> Vec<u8> {
    let mut expected: Vec<u8> = vec![0, 0, 0, 0, 0, 0, 0, 0];
    expected.extend_from_slice(&[1, 0, 0, 0, 0, 0, 0, 0]);
    expected.extend_from_slice(&[50, 0, 0, 0, 0, 0, 0, 0]);
    expected.extend_from_slice(&[5, 0, 0, 0, 0, 0, 0, 0]);
    expected.extend_from_slice(b"Alice");
    expected
}

#[test]
fn sample_test() {
    let t = build_transaction(vec![], vec![output(10, "Carol")]).unwrap();
    let again = build_transaction(vec![], vec![output(10, "Carol")]).unwrap();
    assert_eq!(t.tx_hash(), again.tx_hash());
}

#[test]
fn add_sums_the_range() {
    assert_eq!(add(3, 5), 13);
    assert_eq!(add(7, 0), 7);
    assert_eq!(add(7, 1), 7);
    assert_eq!(add(0, 2), 1);
}

#[test]
fn genesis_hash_is_digest_of_encoding() {
    let t = build_transaction(vec![], vec![output(50, "Alice")]).unwrap();
    assert_eq!(canonical_bytes(&t), alice_bytes());
    assert_eq!(t.tx_hash(), sha256(&alice_bytes()));
    assert_ne!(t.tx_hash(), [0u8; 32]);
    let again = build_transaction(vec![], vec![output(50, "Alice")]).unwrap();
    assert_eq!(again.tx_hash(), t.tx_hash());
    assert_eq!(canonical_bytes(&again), canonical_bytes(&t));
}

#[test]
fn zero_amount_is_accepted() {
    let inputs = vec![input(0xAB, 0)];
    let outputs = vec![output(0, "Bob")];
    let t = build_transaction(inputs.clone(), outputs.clone()).unwrap();
    assert!(verify(&t));
    assert_eq!(t.outputs()[0].amount, 0);
    let strict = build_with_policy(inputs, outputs, false).unwrap();
    assert_eq!(strict.tx_hash(), t.tx_hash());
}

#[test]
fn input_encoding_is_exact() {
    let bytes = encode_parts(&vec![input(0xAB, 0x0102_0304)], &vec![output(0, "Bob")]);
    let mut expected: Vec<u8> = vec![1, 0, 0, 0, 0, 0, 0, 0];
    expected.extend_from_slice(&[0xAB; 32]);
    expected.extend_from_slice(&[4, 3, 2, 1]);
    expected.extend_from_slice(&[1, 0, 0, 0, 0, 0, 0, 0]);
    expected.extend_from_slice(&[0, 0, 0, 0, 0, 0, 0, 0]);
    expected.extend_from_slice(&[3, 0, 0, 0, 0, 0, 0, 0]);
    expected.extend_from_slice(b"Bob");
    assert_eq!(bytes, expected);
}

#[test]
fn empty_outputs_are_refused() {
    assert_eq!(build_transaction(vec![], vec![]).unwrap_err(), ValidationError::EmptyOutputs);
    assert_eq!(
        build_transaction(vec![input(1, 0)], vec![]).unwrap_err(),
        ValidationError::EmptyOutputs
    );
    assert_eq!(build_with_policy(vec![], vec![], false).unwrap_err(), ValidationError::EmptyOutputs);
}

#[test]
fn missing_inputs_refused_without_genesis() {
    assert_eq!(
        build_with_policy(vec![], vec![output(5, "Dan")], false).unwrap_err(),
        ValidationError::MissingInputs
    );
    assert!(build_with_policy(vec![], vec![output(5, "Dan")], true).is_ok());
    assert_eq!(validate(&vec![], &vec![output(5, "Dan")], false), Err(ValidationError::MissingInputs));
    assert_eq!(validate(&vec![input(2, 1)], &vec![output(5, "Dan")], false), Ok(()));
}

#[test]
fn built_transactions_verify() {
    let t = build_transaction(vec![input(3, 1), input(4, 2)], vec![output(9, "Eve"), output(1, "Fay")])
        .unwrap();
    assert!(verify(&t));
}

#[test]
fn tampering_fails_verify() {
    let t = build_transaction(vec![input(3, 1)], vec![output(9, "Eve")]).unwrap();

    let mut outputs = t.outputs().clone();
    outputs[0].amount = 10;
    let changed_amount = Transaction::from_parts(t.inputs().clone(), outputs, t.tx_hash());
    assert!(!verify(&changed_amount));

    let mut outputs = t.outputs().clone();
    outputs[0].recipient[0] ^= 1;
    let changed_recipient = Transaction::from_parts(t.inputs().clone(), outputs, t.tx_hash());
    assert!(!verify(&changed_recipient));

    let mut inputs = t.inputs().clone();
    inputs[0].source_output_index = 2;
    let changed_input = Transaction::from_parts(inputs, t.outputs().clone(), t.tx_hash());
    assert!(!verify(&changed_input));

    let mut hash = t.tx_hash();
    hash[31] ^= 0x80;
    let changed_hash = Transaction::from_parts(t.inputs().clone(), t.outputs().clone(), hash);
    assert!(!verify(&changed_hash));
}

#[test]
fn output_order_changes_hash() {
    let a = build_transaction(vec![input(5, 0)], vec![output(1, "Gus"), output(2, "Hal")]).unwrap();
    let b = build_transaction(vec![input(5, 0)], vec![output(2, "Hal"), output(1, "Gus")]).unwrap();
    let c = build_transaction(vec![input(5, 0)], vec![output(1, "Gus"), output(2, "Hal")]).unwrap();
    assert_ne!(a.tx_hash(), b.tx_hash());
    assert_ne!(canonical_bytes(&a), canonical_bytes(&b));
    assert_eq!(a.tx_hash(), c.tx_hash());
}

#[test]
fn distinct_transactions_have_distinct_hashes() {
    let corpus: Vec<(Vec<TxInput>, Vec<TxOutput>)> = vec![
        (vec![], vec![output(1, "a")]),
        (vec![], vec![output(2, "a")]),
        (vec![], vec![output(1, "b")]),
        (vec![], vec![output(1, "ab"), output(1, "c")]),
        (vec![], vec![output(1, "a"), output(1, "bc")]),
        (vec![input(0, 0)], vec![output(1, "a")]),
        (vec![input(0, 1)], vec![output(1, "a")]),
        (vec![input(1, 0)], vec![output(1, "a")]),
        (vec![input(0, 0), input(0, 0)], vec![output(1, "a")]),
        (vec![], vec![output(1, "")]),
    ];
    let mut hashes: Vec<[u8; 32]> = Vec::new();
    let mut encodings: Vec<Vec<u8>> = Vec::new();
    for (inputs, outputs) in corpus {
        let t = build_transaction(inputs, outputs).unwrap();
        hashes.push(t.tx_hash());
        encodings.push(canonical_bytes(&t));
    }
    for i in 0..hashes.len() {
        for j in (i + 1)..hashes.len() {
            assert_ne!(hashes[i], hashes[j]);
            assert_ne!(encodings[i], encodings[j]);
        }
    }
}

#[test]
fn digest_matches_compares_stored_hash() {
    let t = Transaction::from_parts(vec![], vec![output(1, "a")], [7u8; 32]);
    assert!(digest_matches(&t, &[7u8; 32]));
    let mut other = [7u8; 32];
    other[12] = 8;
    assert!(!digest_matches(&t, &other));
}
