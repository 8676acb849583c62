use vstd::prelude::*;

verus! {

/// The lowest `n` bytes of `x`, least significant first.
pub open spec fn le_bytes(x: nat, n: nat) -> Seq<u8>
    decreases n,
{
    if n == 0 {
        Seq::empty()
    } else {
        seq![(x % 256) as u8] + le_bytes(x / 256, (n - 1) as nat)
    }
}

/// Appends the lowest `n` bytes of `x` to `out`, least significant first.
pub fn push_le(out: &mut Vec<u8>, x: u64, n: usize)
    requires
        n <= 8,
    ensures
        final(out)@ == old(out)@ + le_bytes(x as nat, n as nat),
{
    let mut v: u64 = x;
    let mut i: usize = 0;
    while i < n
        invariant
            i <= n,
            out@ + le_bytes(v as nat, (n - i) as nat) == old(out)@ + le_bytes(x as nat, n as nat),
        decreases n - i,
    {
        let b: u8 = (v % 256) as u8;
        let ghost before = out@;
        out.push(b);
        proof {
            let k = (n - i) as nat;
            assert(le_bytes(v as nat, k) == seq![b] + le_bytes((v / 256) as nat, (k - 1) as nat));
            assert(before + le_bytes(v as nat, k) =~= out@ + le_bytes((v / 256) as nat, (k - 1) as nat));
        }
        v = v / 256;
        i = i + 1;
    }
    assert(le_bytes(v as nat, 0) =~= Seq::<u8>::empty());
    assert(out@ + Seq::<u8>::empty() =~= out@);
}

} // verus!

verus! {

/// What an input holds: the hash of the transaction it spends from, and the
/// position of the spent output there.
pub type InputModel = (Seq<u8>, u32);

/// What an output holds: its amount and its recipient.
pub type OutputModel = (u64, Seq<u8>);

/// An input: the 32 hash bytes, then the index in four bytes.
pub open spec fn enc_input(i: InputModel) -> Seq<u8> {
    i.0 + le_bytes(i.1 as nat, 4)
}

/// An output: the amount in eight bytes, the recipient's length in eight
/// bytes, then the recipient.
pub open spec fn enc_output(o: OutputModel) -> Seq<u8> {
    le_bytes(o.0 as nat, 8) + le_bytes(o.1.len(), 8) + o.1
}

/// The inputs, each encoded, one after another.
pub open spec fn enc_inputs(s: Seq<InputModel>) -> Seq<u8>
    decreases s.len(),
{
    if s.len() == 0 {
        Seq::empty()
    } else {
        enc_input(s[0]) + enc_inputs(s.drop_first())
    }
}

/// The outputs, each encoded, one after another.
pub open spec fn enc_outputs(s: Seq<OutputModel>) -> Seq<u8>
    decreases s.len(),
{
    if s.len() == 0 {
        Seq::empty()
    } else {
        enc_output(s[0]) + enc_outputs(s.drop_first())
    }
}

/// The canonical encoding of a transaction's contents: the number of inputs
/// in eight bytes, the inputs, the number of outputs in eight bytes, the
/// outputs. All integers are little-endian.
pub open spec fn canonical_encoding(ins: Seq<InputModel>, outs: Seq<OutputModel>) -> Seq<u8> {
    le_bytes(ins.len(), 8) + enc_inputs(ins) + le_bytes(outs.len(), 8) + enc_outputs(outs)
}

pub proof fn lemma_enc_inputs_push(s: Seq<InputModel>, x: InputModel)
    ensures
        enc_inputs(s.push(x)) == enc_inputs(s) + enc_input(x),
    decreases s.len(),
{
    if s.len() == 0 {
        assert(s.push(x).drop_first() =~= s);
        assert(enc_inputs(s.push(x)) =~= enc_inputs(s) + enc_input(x));
    } else {
        assert(s.push(x).drop_first() =~= s.drop_first().push(x));
        lemma_enc_inputs_push(s.drop_first(), x);
        assert(enc_inputs(s.push(x)) =~= enc_inputs(s) + enc_input(x));
    }
}

pub proof fn lemma_enc_outputs_push(s: Seq<OutputModel>, x: OutputModel)
    ensures
        enc_outputs(s.push(x)) == enc_outputs(s) + enc_output(x),
    decreases s.len(),
{
    if s.len() == 0 {
        assert(s.push(x).drop_first() =~= s);
        assert(enc_outputs(s.push(x)) =~= enc_outputs(s) + enc_output(x));
    } else {
        assert(s.push(x).drop_first() =~= s.drop_first().push(x));
        lemma_enc_outputs_push(s.drop_first(), x);
        assert(enc_outputs(s.push(x)) =~= enc_outputs(s) + enc_output(x));
    }
}

/// Appends `bytes` to `out`.
pub fn push_all(out: &mut Vec<u8>, bytes: &[u8])
    ensures
        final(out)@ == old(out)@ + bytes@,
{
    let mut j: usize = 0;
    while j < bytes.len()
        invariant
            j <= bytes@.len(),
            out@ == old(out)@ + bytes@.take(j as int),
        decreases bytes@.len() - j,
    {
        out.push(bytes[j]);
        assert(bytes@.take(j + 1) =~= bytes@.take(j as int).push(bytes@[j as int]));
        j = j + 1;
    }
    assert(bytes@.take(j as int) =~= bytes@);
}

} // verus!

verus! {

/// `256` to the power `n`.
pub open spec fn pow256(n: nat) -> nat
    decreases n,
{
    if n == 0 {
        1
    } else {
        256 * pow256((n - 1) as nat)
    }
}

/// The number that the little-endian bytes `b` stand for.
pub open spec fn le_value(b: Seq<u8>) -> nat
    decreases b.len(),
{
    if b.len() == 0 {
        0
    } else {
        b[0] as nat + 256 * le_value(b.drop_first())
    }
}

pub proof fn lemma_le_bytes_len(x: nat, n: nat)
    ensures
        le_bytes(x, n).len() == n,
    decreases n,
{
    if n > 0 {
        lemma_le_bytes_len(x / 256, (n - 1) as nat);
    }
}

pub proof fn lemma_le_round_trip(x: nat, n: nat)
    requires
        x < pow256(n),
    ensures
        le_value(le_bytes(x, n)) == x,
    decreases n,
{
    if n > 0 {
        let p = pow256((n - 1) as nat);
        assert(x / 256 < p) by (nonlinear_arith)
            requires
                x < 256 * p,
        ;
        lemma_le_round_trip(x / 256, (n - 1) as nat);
        let b = le_bytes(x, n);
        assert(b.drop_first() =~= le_bytes(x / 256, (n - 1) as nat));
        assert(x == x % 256 + 256 * (x / 256)) by (nonlinear_arith);
    }
}

pub proof fn lemma_pow256_values()
    ensures
        pow256(4) == 0x1_0000_0000,
        pow256(8) == 0x1_0000_0000_0000_0000,
{
    assert(pow256(0) == 1);
    assert(pow256(1) == 0x100);
    assert(pow256(2) == 0x1_0000);
    assert(pow256(3) == 0x100_0000);
    assert(pow256(4) == 0x1_0000_0000);
    assert(pow256(5) == 0x100_0000_0000);
    assert(pow256(6) == 0x1_0000_0000_0000);
    assert(pow256(7) == 0x100_0000_0000_0000);
    assert(pow256(8) == 0x1_0000_0000_0000_0000);
}

/// Reads `n` encoded inputs from the front of `b`; gives them and what is
/// left of `b`.
pub open spec fn parse_inputs(b: Seq<u8>, n: nat) -> Option<(Seq<InputModel>, Seq<u8>)>
    decreases n,
{
    if n == 0 {
        Some((Seq::empty(), b))
    } else if b.len() < 36 {
        None
    } else {
        match parse_inputs(b.skip(36), (n - 1) as nat) {
            Some((items, rest)) => Some(
                (seq![(b.take(32), le_value(b.subrange(32, 36)) as u32)] + items, rest),
            ),
            None => None,
        }
    }
}

/// Reads `n` encoded outputs from the front of `b`; gives them and what is
/// left of `b`.
pub open spec fn parse_outputs(b: Seq<u8>, n: nat) -> Option<(Seq<OutputModel>, Seq<u8>)>
    decreases n,
{
    if n == 0 {
        Some((Seq::empty(), b))
    } else if b.len() < 16 {
        None
    } else {
        let len = le_value(b.subrange(8, 16)) as int;
        if b.len() < 16 + len {
            None
        } else {
            match parse_outputs(b.skip(16 + len), (n - 1) as nat) {
                Some((items, rest)) => Some(
                    (seq![(le_value(b.take(8)) as u64, b.subrange(16, 16 + len))] + items, rest),
                ),
                None => None,
            }
        }
    }
}

/// Reads a whole canonical encoding back into inputs and outputs.
pub open spec fn parse_canonical(b: Seq<u8>) -> Option<(Seq<InputModel>, Seq<OutputModel>)> {
    if b.len() < 8 {
        None
    } else {
        match parse_inputs(b.skip(8), le_value(b.take(8))) {
            Some((ins, r)) => if r.len() < 8 {
                None
            } else {
                match parse_outputs(r.skip(8), le_value(r.take(8))) {
                    Some((outs, r2)) => if r2.len() == 0 {
                        Some((ins, outs))
                    } else {
                        None
                    },
                    None => None,
                }
            },
            None => None,
        }
    }
}

/// Inputs that an encoding can carry: each source hash has 32 bytes, and
/// their number fits in eight bytes.
pub open spec fn well_formed_inputs(s: Seq<InputModel>) -> bool {
    &&& s.len() < pow256(8)
    &&& forall|i: int| 0 <= i < s.len() ==> (#[trigger] s[i]).0.len() == 32
}

/// Outputs that an encoding can carry: each recipient's length, and their
/// number, fit in eight bytes.
pub open spec fn well_formed_outputs(s: Seq<OutputModel>) -> bool {
    &&& s.len() < pow256(8)
    &&& forall|i: int| 0 <= i < s.len() ==> (#[trigger] s[i]).1.len() < pow256(8)
}

pub proof fn lemma_parse_inputs(s: Seq<InputModel>, rest: Seq<u8>)
    requires
        forall|i: int| 0 <= i < s.len() ==> (#[trigger] s[i]).0.len() == 32,
    ensures
        parse_inputs(enc_inputs(s) + rest, s.len()) == Some((s, rest)),
    decreases s.len(),
{
    if s.len() > 0 {
        let x = s[0];
        let tail = s.drop_first();
        assert forall|i: int| 0 <= i < tail.len() implies (#[trigger] tail[i]).0.len() == 32 by {
            assert(tail[i] == s[i + 1]);
        }
        lemma_parse_inputs(tail, rest);
        let b = enc_inputs(s) + rest;
        lemma_le_bytes_len(x.1 as nat, 4);
        lemma_pow256_values();
        lemma_le_round_trip(x.1 as nat, 4);
        assert(b =~= x.0 + le_bytes(x.1 as nat, 4) + (enc_inputs(tail) + rest));
        assert(b.take(32) =~= x.0);
        assert(b.subrange(32, 36) =~= le_bytes(x.1 as nat, 4));
        assert(b.skip(36) =~= enc_inputs(tail) + rest);
        assert(seq![x] + tail =~= s);
    } else {
        assert(enc_inputs(s) + rest =~= rest);
        assert(s =~= Seq::<InputModel>::empty());
    }
}

pub proof fn lemma_parse_outputs(s: Seq<OutputModel>, rest: Seq<u8>)
    requires
        forall|i: int| 0 <= i < s.len() ==> (#[trigger] s[i]).1.len() < pow256(8),
    ensures
        parse_outputs(enc_outputs(s) + rest, s.len()) == Some((s, rest)),
    decreases s.len(),
{
    if s.len() > 0 {
        let x = s[0];
        let tail = s.drop_first();
        assert forall|i: int| 0 <= i < tail.len() implies (#[trigger] tail[i]).1.len() < pow256(
            8,
        ) by {
            assert(tail[i] == s[i + 1]);
        }
        lemma_parse_outputs(tail, rest);
        let b = enc_outputs(s) + rest;
        let len = x.1.len() as int;
        lemma_le_bytes_len(x.0 as nat, 8);
        lemma_le_bytes_len(len as nat, 8);
        lemma_pow256_values();
        lemma_le_round_trip(x.0 as nat, 8);
        lemma_le_round_trip(len as nat, 8);
        assert(b =~= le_bytes(x.0 as nat, 8) + le_bytes(len as nat, 8) + x.1 + (enc_outputs(tail) + rest));
        assert(b.take(8) =~= le_bytes(x.0 as nat, 8));
        assert(b.subrange(8, 16) =~= le_bytes(len as nat, 8));
        assert(b.subrange(16, 16 + len) =~= x.1);
        assert(b.skip(16 + len) =~= enc_outputs(tail) + rest);
        assert(seq![x] + tail =~= s);
    } else {
        assert(enc_outputs(s) + rest =~= rest);
        assert(s =~= Seq::<OutputModel>::empty());
    }
}

/// Reading back a canonical encoding gives the inputs and outputs that
/// were encoded.
pub proof fn lemma_canonical_round_trip(ins: Seq<InputModel>, outs: Seq<OutputModel>)
    requires
        well_formed_inputs(ins),
        well_formed_outputs(outs),
    ensures
        parse_canonical(canonical_encoding(ins, outs)) == Some((ins, outs)),
{
    let b = canonical_encoding(ins, outs);
    let tail = le_bytes(outs.len(), 8) + enc_outputs(outs);
    lemma_le_bytes_len(ins.len(), 8);
    lemma_le_bytes_len(outs.len(), 8);
    lemma_le_round_trip(ins.len(), 8);
    lemma_le_round_trip(outs.len(), 8);
    assert(b =~= le_bytes(ins.len(), 8) + (enc_inputs(ins) + tail));
    assert(b.take(8) =~= le_bytes(ins.len(), 8));
    assert(b.skip(8) =~= enc_inputs(ins) + tail);
    lemma_parse_inputs(ins, tail);
    assert(tail.take(8) =~= le_bytes(outs.len(), 8));
    assert(tail.skip(8) =~= enc_outputs(outs) + Seq::<u8>::empty());
    lemma_parse_outputs(outs, Seq::<u8>::empty());
}

/// The canonical encoding is unambiguous: two different pairs of inputs
/// and outputs never encode to the same bytes.
pub proof fn lemma_canonical_injective(
    ins1: Seq<InputModel>,
    outs1: Seq<OutputModel>,
    ins2: Seq<InputModel>,
    outs2: Seq<OutputModel>,
)
    requires
        well_formed_inputs(ins1),
        well_formed_outputs(outs1),
        well_formed_inputs(ins2),
        well_formed_outputs(outs2),
        canonical_encoding(ins1, outs1) == canonical_encoding(ins2, outs2),
    ensures
        ins1 == ins2,
        outs1 == outs2,
{
    lemma_canonical_round_trip(ins1, outs1);
    lemma_canonical_round_trip(ins2, outs2);
}

} // verus!
