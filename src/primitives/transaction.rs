use vstd::prelude::*;

use crate::primitives::encoding::{
    canonical_encoding, enc_input, enc_inputs, enc_output, enc_outputs, le_bytes,
    lemma_canonical_injective, lemma_enc_inputs_push, lemma_enc_outputs_push, lemma_pow256_values,
    pow256, push_all, push_le, well_formed_inputs, well_formed_outputs, InputModel, OutputModel,
};
use crate::primitives::hashing::{sha256, sha256_of};

verus! {

/// A reference to an output of an earlier transaction, which this one spends.
#[derive(Clone, Copy, Debug, PartialEq, Eq)]
pub struct TxInput {
    /// Identity of the transaction that created the spent output.
    pub source_tx_hash: [u8; 32],
    /// Position of the spent output in that transaction's outputs.
    pub source_output_index: u32,
}

impl View for TxInput {
    type V = InputModel;

    open spec fn view(&self) -> InputModel {
        (self.source_tx_hash@, self.source_output_index)
    }
}

/// A new unit of value. Amounts are unsigned, so no output can carry a
/// negative amount.
#[derive(Clone, Debug, PartialEq, Eq)]
pub struct TxOutput {
    pub amount: u64,
    /// An opaque identity, compared by its bytes only.
    pub recipient: Vec<u8>,
}

impl View for TxOutput {
    type V = OutputModel;

    open spec fn view(&self) -> OutputModel {
        (self.amount, self.recipient@)
    }
}

pub open spec fn inputs_model(s: Seq<TxInput>) -> Seq<InputModel> {
    s.map_values(|x: TxInput| x@)
}

pub open spec fn outputs_model(s: Seq<TxOutput>) -> Seq<OutputModel> {
    s.map_values(|x: TxOutput| x@)
}

/// The canonical encoding of `inputs` followed by `outputs`.
pub fn encode_parts(inputs: &Vec<TxInput>, outputs: &Vec<TxOutput>) -> (r: Vec<u8>)
    ensures
        r@ == canonical_encoding(inputs_model(inputs@), outputs_model(outputs@)),
        well_formed_inputs(inputs_model(inputs@)),
        well_formed_outputs(outputs_model(outputs@)),
{
    proof {
        lemma_pow256_values();
    }
    let mut out: Vec<u8> = Vec::new();
    push_le(&mut out, inputs.len() as u64, 8);
    let mut i: usize = 0;
    while i < inputs.len()
        invariant
            i <= inputs@.len(),
            out@ == le_bytes(inputs@.len(), 8) + enc_inputs(inputs_model(inputs@.take(i as int))),
        decreases inputs@.len() - i,
    {
        let input = &inputs[i];
        let ghost before = out@;
        push_all(&mut out, &input.source_tx_hash);
        push_le(&mut out, input.source_output_index as u64, 4);
        proof {
            let prev = inputs_model(inputs@.take(i as int));
            lemma_enc_inputs_push(prev, input@);
            assert(inputs_model(inputs@.take(i + 1)) =~= prev.push(input@));
            assert(out@ =~= before + enc_input(input@));
        }
        i = i + 1;
    }
    assert(inputs@.take(i as int) =~= inputs@);
    push_le(&mut out, outputs.len() as u64, 8);
    let ghost head = out@;
    let mut k: usize = 0;
    while k < outputs.len()
        invariant
            k <= outputs@.len(),
            out@ == head + enc_outputs(outputs_model(outputs@.take(k as int))),
            forall|j: int| 0 <= j < k ==> (#[trigger] outputs@[j]).recipient@.len() < pow256(8),
            pow256(8) == 0x1_0000_0000_0000_0000,
        decreases outputs@.len() - k,
    {
        let output = &outputs[k];
        let ghost before = out@;
        push_le(&mut out, output.amount, 8);
        push_le(&mut out, output.recipient.len() as u64, 8);
        push_all(&mut out, output.recipient.as_slice());
        assert(output.recipient@.len() < pow256(8));
        proof {
            let prev = outputs_model(outputs@.take(k as int));
            lemma_enc_outputs_push(prev, output@);
            assert(outputs_model(outputs@.take(k + 1)) =~= prev.push(output@));
            assert(out@ =~= before + enc_output(output@));
        }
        k = k + 1;
    }
    assert(outputs@.take(k as int) =~= outputs@);
    assert(out@ =~= canonical_encoding(inputs_model(inputs@), outputs_model(outputs@)));
    let ghost ins = inputs_model(inputs@);
    let ghost outs = outputs_model(outputs@);
    assert forall|j: int| 0 <= j < ins.len() implies (#[trigger] ins[j]).0.len() == 32 by {
        assert(ins[j] == inputs@[j]@);
    }
    assert forall|j: int| 0 <= j < outs.len() implies (#[trigger] outs[j]).1.len() < pow256(8) by {
        assert(outs[j] == outputs@[j]@);
    }
    out
}

/// Why a transaction could not be built.
#[derive(Clone, Copy, Debug, PartialEq, Eq, Structural)]
pub enum ValidationError {
    /// No outputs were given.
    EmptyOutputs,
    /// No inputs were given, and genesis transactions were not allowed.
    MissingInputs,
}

/// The outcome of structural validation: outputs must not be empty, and
/// inputs may be empty only where genesis transactions are allowed.
pub open spec fn validation_outcome(n_inputs: nat, n_outputs: nat, allow_genesis: bool) -> Result<
    (),
    ValidationError,
> {
    if n_outputs == 0 {
        Err(ValidationError::EmptyOutputs)
    } else if n_inputs == 0 && !allow_genesis {
        Err(ValidationError::MissingInputs)
    } else {
        Ok(())
    }
}

/// Checks the structure of a transaction's parts before it is built.
pub fn validate(inputs: &Vec<TxInput>, outputs: &Vec<TxOutput>, allow_genesis: bool) -> (r: Result<
    (),
    ValidationError,
>)
    ensures
        r == validation_outcome(inputs@.len(), outputs@.len(), allow_genesis),
{
    if outputs.len() == 0 {
        Err(ValidationError::EmptyOutputs)
    } else if inputs.len() == 0 && !allow_genesis {
        Err(ValidationError::MissingInputs)
    } else {
        Ok(())
    }
}

/// What a transaction holds: its inputs, its outputs and its stored hash.
pub type TransactionModel = (Seq<InputModel>, Seq<OutputModel>, Seq<u8>);

/// Whether the stored hash of `t` is the digest of its canonical encoding.
pub open spec fn sealed(t: TransactionModel) -> bool {
    t.2 == sha256_of(canonical_encoding(t.0, t.1))
}

/// Whether the parts of `t` can be carried by the canonical encoding. It
/// holds of every transaction in memory; `canonical_bytes`, `verify` and
/// the builders establish it.
pub open spec fn encodable(t: TransactionModel) -> bool {
    well_formed_inputs(t.0) && well_formed_outputs(t.1)
}

/// A transfer of value from earlier outputs to new ones, identified by the
/// SHA-256 digest of its canonical encoding. Its parts cannot be changed
/// once it exists.
#[derive(Clone, Debug)]
pub struct Transaction {
    inputs: Vec<TxInput>,
    outputs: Vec<TxOutput>,
    tx_hash: [u8; 32],
}

impl View for Transaction {
    type V = TransactionModel;

    closed spec fn view(&self) -> TransactionModel {
        (inputs_model(self.inputs@), outputs_model(self.outputs@), self.tx_hash@)
    }
}

impl Transaction {
    /// A transaction as it was received: the stored hash is taken as given
    /// and is not checked. Use `verify` before trusting it.
    pub fn from_parts(inputs: Vec<TxInput>, outputs: Vec<TxOutput>, tx_hash: [u8; 32]) -> (t:
        Transaction)
        ensures
            t@ == (inputs_model(inputs@), outputs_model(outputs@), tx_hash@),
    {
        Transaction { inputs, outputs, tx_hash }
    }

    pub fn inputs(&self) -> (r: &Vec<TxInput>)
        ensures
            inputs_model(r@) == self@.0,
    {
        &self.inputs
    }

    pub fn outputs(&self) -> (r: &Vec<TxOutput>)
        ensures
            outputs_model(r@) == self@.1,
    {
        &self.outputs
    }

    /// The stored hash.
    pub fn tx_hash(&self) -> (r: [u8; 32])
        ensures
            r@ == self@.2,
    {
        self.tx_hash
    }
}

/// The bytes that the hash of `t` is computed over, and that signatures
/// are made over.
pub fn canonical_bytes(t: &Transaction) -> (r: Vec<u8>)
    ensures
        r@ == canonical_encoding(t@.0, t@.1),
        encodable(t@),
{
    encode_parts(&t.inputs, &t.outputs)
}

/// Whether the stored hash of `t` equals `digest`.
pub fn digest_matches(t: &Transaction, digest: &[u8; 32]) -> (r: bool)
    ensures
        r == (t@.2 == digest@),
{
    let mut j: usize = 0;
    while j < 32
        invariant
            j <= 32,
            t.tx_hash@.len() == 32,
            digest@.len() == 32,
            t.tx_hash@.take(j as int) == digest@.take(j as int),
        decreases 32 - j,
    {
        if t.tx_hash[j] != digest[j] {
            assert(t.tx_hash@[j as int] != digest@[j as int]);
            return false;
        }
        assert(t.tx_hash@.take(j + 1) =~= t.tx_hash@.take(j as int).push(t.tx_hash@[j as int]));
        assert(digest@.take(j + 1) =~= digest@.take(j as int).push(digest@[j as int]));
        j = j + 1;
    }
    assert(t.tx_hash@ =~= t.tx_hash@.take(32));
    assert(digest@ =~= digest@.take(32));
    true
}

/// Recomputes the hash of `t` from its parts and tells whether it equals
/// the stored one.
pub fn verify(t: &Transaction) -> (r: bool)
    ensures
        r == sealed(t@),
        encodable(t@),
{
    let bytes = encode_parts(&t.inputs, &t.outputs);
    let digest = sha256(&bytes);
    digest_matches(t, &digest)
}

/// Validates the parts and builds a transaction whose hash is the digest
/// of their canonical encoding. Empty inputs are accepted only where
/// `allow_genesis` holds. Zero amounts are accepted.
pub fn build_with_policy(inputs: Vec<TxInput>, outputs: Vec<TxOutput>, allow_genesis: bool) -> (r:
    Result<Transaction, ValidationError>)
    ensures
        match r {
            Ok(t) => {
                &&& validation_outcome(inputs@.len(), outputs@.len(), allow_genesis) is Ok
                &&& t@.0 == inputs_model(inputs@)
                &&& t@.1 == outputs_model(outputs@)
                &&& t@.2 == sha256_of(canonical_encoding(t@.0, t@.1))
                &&& encodable(t@)
            },
            Err(e) => validation_outcome(inputs@.len(), outputs@.len(), allow_genesis) == Err::<
                (),
                ValidationError,
            >(e),
        },
{
    match validate(&inputs, &outputs, allow_genesis) {
        Err(e) => Err(e),
        Ok(()) => {
            let bytes = encode_parts(&inputs, &outputs);
            let tx_hash = sha256(&bytes);
            Ok(Transaction::from_parts(inputs, outputs, tx_hash))
        },
    }
}

/// Builds a transaction from its parts. Genesis transactions, with no
/// inputs, are accepted; a transaction without outputs is refused with
/// `EmptyOutputs`.
pub fn build_transaction(inputs: Vec<TxInput>, outputs: Vec<TxOutput>) -> (r: Result<
    Transaction,
    ValidationError,
>)
    ensures
        match r {
            Ok(t) => {
                &&& outputs@.len() > 0
                &&& t@.0 == inputs_model(inputs@)
                &&& t@.1 == outputs_model(outputs@)
                &&& t@.2 == sha256_of(canonical_encoding(t@.0, t@.1))
                &&& encodable(t@)
            },
            Err(e) => outputs@.len() == 0 && e == ValidationError::EmptyOutputs,
        },
{
    build_with_policy(inputs, outputs, true)
}

/// Building is deterministic: two transactions built from the same inputs
/// and outputs have the same hash and the same canonical bytes.
pub proof fn lemma_build_deterministic(t1: Transaction, t2: Transaction)
    requires
        sealed(t1@),
        sealed(t2@),
        t1@.0 == t2@.0,
        t1@.1 == t2@.1,
    ensures
        t1@.2 == t2@.2,
        canonical_encoding(t1@.0, t1@.1) == canonical_encoding(t2@.0, t2@.1),
{
}

/// Transactions whose inputs or outputs differ have different canonical
/// bytes, so their hashes differ unless SHA-256 collides.
pub proof fn lemma_distinct_parts_distinct_bytes(t1: Transaction, t2: Transaction)
    requires
        encodable(t1@),
        encodable(t2@),
        t1@.0 != t2@.0 || t1@.1 != t2@.1,
    ensures
        canonical_encoding(t1@.0, t1@.1) != canonical_encoding(t2@.0, t2@.1),
{
    if canonical_encoding(t1@.0, t1@.1) == canonical_encoding(t2@.0, t2@.1) {
        lemma_canonical_injective(t1@.0, t1@.1, t2@.0, t2@.1);
    }
}

/// The order of the outputs is part of the encoding: the same outputs in
/// another order give other canonical bytes.
pub proof fn lemma_output_order_matters(t1: Transaction, t2: Transaction)
    requires
        encodable(t1@),
        encodable(t2@),
        t1@.0 == t2@.0,
        t1@.1.to_multiset() == t2@.1.to_multiset(),
        t1@.1 != t2@.1,
    ensures
        canonical_encoding(t1@.0, t1@.1) != canonical_encoding(t2@.0, t2@.1),
{
    lemma_distinct_parts_distinct_bytes(t1, t2);
}

/// A transaction as `build_transaction` returns it passes `verify`.
pub proof fn lemma_verify_built(t: Transaction)
    requires
        t@.2 == sha256_of(canonical_encoding(t@.0, t@.1)),
    ensures
        sealed(t@),
{
}

/// A transaction whose parts were changed after it was built, and whose
/// hash was kept, passes `verify` only where SHA-256 maps two different
/// encodings to the same digest.
pub proof fn lemma_tampered_needs_collision(t: Transaction, tampered: Transaction)
    requires
        encodable(t@),
        encodable(tampered@),
        sealed(t@),
        tampered@.2 == t@.2,
        tampered@.0 != t@.0 || tampered@.1 != t@.1,
        sealed(tampered@),
    ensures
        canonical_encoding(t@.0, t@.1) != canonical_encoding(tampered@.0, tampered@.1),
        sha256_of(canonical_encoding(t@.0, t@.1)) == sha256_of(
            canonical_encoding(tampered@.0, tampered@.1),
        ),
{
    lemma_distinct_parts_distinct_bytes(t, tampered);
}

} // verus!
