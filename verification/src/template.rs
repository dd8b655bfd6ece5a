//! Template commitment hasher.
//!
//! Computes the deterministic digest of the fields that define the shape of a
//! not-yet-existing transaction: version, lock time, input count, a digest of
//! the declared input sequence numbers, output count, a digest of the declared
//! outputs, and the spending input's index.  This digest is what a covenant
//! leaf commits to, so its encoding is bit-exact and fixed.

use vstd::prelude::*;
use crate::encode::{u32_le, u64_le, compact_size, push_u32_le, push_u64_le, push_compact_size, push_bytes};

verus! {

/// The digest of a byte string under SHA-256.  The digest is far too wide a
/// function to restate here; the trusted wrapper below ties this name to the
/// real implementation.
pub uninterp spec fn sha256_of(data: Seq<u8>) -> Seq<u8>;

/// Relies on `bitcoin::hashes::sha256::Hash::hash`: the digest depends on the
/// input bytes alone and is always 32 bytes long.
#[verifier::external_body]
fn sha256(data: &Vec<u8>) -> (r: Vec<u8>)
    ensures
        r@ == sha256_of(data@),
        r@.len() == 32,
{
    let h = <bitcoin::hashes::sha256::Hash as bitcoin::hashes::Hash>::hash(data.as_slice());
    <bitcoin::hashes::sha256::Hash as bitcoin::hashes::Hash>::to_byte_array(h).to_vec()
}

/// One declared output of a committed transaction shape: an amount in
/// satoshis and the script it pays to.
pub struct TxOutput {
    pub value: u64,
    pub script: Vec<u8>,
}

#[verifier::ext_equal]
pub struct TxOutputV {
    pub value: u64,
    pub script: Seq<u8>,
}

impl View for TxOutput {
    type V = TxOutputV;

    open spec fn view(&self) -> TxOutputV {
        TxOutputV { value: self.value, script: self.script@ }
    }
}

impl DeepView for TxOutput {
    type V = TxOutputV;

    open spec fn deep_view(&self) -> TxOutputV {
        self@
    }
}

/// The fields of a transaction shape that the covenant commits to.  The
/// declared inputs are reduced to their sequence numbers: the covenant does
/// not commit to the outpoints being spent, which is what lets a chain of
/// transactions be committed before any of them exists.
pub struct TxTemplate {
    pub version: u32,
    pub lock_time: u32,
    pub sequences: Vec<u32>,
    pub outputs: Vec<TxOutput>,
    pub input_index: u32,
}

#[verifier::ext_equal]
pub struct TxTemplateV {
    pub version: u32,
    pub lock_time: u32,
    pub sequences: Seq<u32>,
    pub outputs: Seq<TxOutputV>,
    pub input_index: u32,
}

impl View for TxTemplate {
    type V = TxTemplateV;

    open spec fn view(&self) -> TxTemplateV {
        TxTemplateV {
            version: self.version,
            lock_time: self.lock_time,
            sequences: self.sequences@,
            outputs: self.outputs.deep_view(),
            input_index: self.input_index,
        }
    }
}

/// Consensus serialization of one output: value, then the script with its
/// compact-size length prefix.
pub open spec fn encode_output(o: TxOutputV) -> Seq<u8> {
    u64_le(o.value) + compact_size(o.script.len() as u64) + o.script
}

pub open spec fn encode_outputs(os: Seq<TxOutputV>) -> Seq<u8>
    decreases os.len(),
{
    if os.len() == 0 {
        Seq::empty()
    } else {
        encode_output(os[0]) + encode_outputs(os.drop_first())
    }
}

pub open spec fn encode_sequences(ss: Seq<u32>) -> Seq<u8>
    decreases ss.len(),
{
    if ss.len() == 0 {
        Seq::empty()
    } else {
        u32_le(ss[0]) + encode_sequences(ss.drop_first())
    }
}

pub proof fn lemma_encode_outputs_push(os: Seq<TxOutputV>, o: TxOutputV)
    ensures
        encode_outputs(os.push(o)) == encode_outputs(os) + encode_output(o),
    decreases os.len(),
{
    if os.len() == 0 {
        reveal_with_fuel(encode_outputs, 2);
        assert(os.push(o)[0] == o);
        assert(os.push(o).drop_first() =~= Seq::<TxOutputV>::empty());
        assert(encode_outputs(os.push(o)) =~= encode_outputs(os) + encode_output(o));
    } else {
        assert(os.push(o).drop_first() =~= os.drop_first().push(o));
        assert(os.push(o)[0] == os[0]);
        lemma_encode_outputs_push(os.drop_first(), o);
        assert(encode_outputs(os.push(o)) == encode_output(os[0]) + (encode_outputs(os.drop_first())
            + encode_output(o)));
        assert(encode_outputs(os) == encode_output(os[0]) + encode_outputs(os.drop_first()));
        assert(encode_output(os[0]) + (encode_outputs(os.drop_first()) + encode_output(o)) =~= (
        encode_output(os[0]) + encode_outputs(os.drop_first())) + encode_output(o));
    }
}

pub proof fn lemma_encode_sequences_push(ss: Seq<u32>, x: u32)
    ensures
        encode_sequences(ss.push(x)) == encode_sequences(ss) + u32_le(x),
    decreases ss.len(),
{
    if ss.len() == 0 {
        reveal_with_fuel(encode_sequences, 2);
        assert(ss.push(x)[0] == x);
        assert(ss.push(x).drop_first() =~= Seq::<u32>::empty());
        assert(encode_sequences(ss.push(x)) =~= encode_sequences(ss) + u32_le(x));
    } else {
        assert(ss.push(x).drop_first() =~= ss.drop_first().push(x));
        assert(ss.push(x)[0] == ss[0]);
        lemma_encode_sequences_push(ss.drop_first(), x);
        assert(encode_sequences(ss.push(x)) == u32_le(ss[0]) + (encode_sequences(ss.drop_first())
            + u32_le(x)));
        assert(encode_sequences(ss) == u32_le(ss[0]) + encode_sequences(ss.drop_first()));
        assert(u32_le(ss[0]) + (encode_sequences(ss.drop_first()) + u32_le(x)) =~= (u32_le(ss[0])
            + encode_sequences(ss.drop_first())) + u32_le(x));
    }
}

/// The bytes whose digest is the template commitment, in their fixed order.
pub open spec fn template_preimage(t: TxTemplateV) -> Seq<u8> {
    u32_le(t.version) + u32_le(t.lock_time) + u32_le(t.sequences.len() as u32) + sha256_of(
        encode_sequences(t.sequences),
    ) + u32_le(t.outputs.len() as u32) + sha256_of(encode_outputs(t.outputs)) + u32_le(
        t.input_index,
    )
}

/// The template commitment itself.  Two transactions with identical declared
/// fields always yield identical digests, which is what makes the covenant
/// satisfiable later.
pub open spec fn template_hash(t: TxTemplateV) -> Seq<u8> {
    sha256_of(template_preimage(t))
}

/// Computes the template commitment of a transaction shape.
pub fn commit_template(t: &TxTemplate) -> (r: Vec<u8>)
    requires
        t.sequences@.len() <= 0xffff_ffff,
        t.outputs@.len() <= 0xffff_ffff,
    ensures
        r@ == template_hash(t@),
        r@.len() == 32,
{
    let mut seq_bytes: Vec<u8> = Vec::new();
    let mut i: usize = 0;
    while i < t.sequences.len()
        invariant
            i <= t.sequences.len(),
            seq_bytes@ == encode_sequences(t.sequences@.take(i as int)),
        decreases t.sequences.len() - i,
    {
        push_u32_le(&mut seq_bytes, t.sequences[i]);
        proof {
            assert(t.sequences@.take(i as int + 1) =~= t.sequences@.take(i as int).push(
                t.sequences@[i as int],
            ));
            lemma_encode_sequences_push(t.sequences@.take(i as int), t.sequences@[i as int]);
        }
        i += 1;
    }
    proof {
        assert(t.sequences@.take(t.sequences@.len() as int) =~= t.sequences@);
    }
    let seq_digest = sha256(&seq_bytes);

    let mut out_bytes: Vec<u8> = Vec::new();
    let mut j: usize = 0;
    while j < t.outputs.len()
        invariant
            j <= t.outputs.len(),
            out_bytes@ == encode_outputs(t.outputs.deep_view().take(j as int)),
        decreases t.outputs.len() - j,
    {
        let ghost pre = out_bytes@;
        push_u64_le(&mut out_bytes, t.outputs[j].value);
        push_compact_size(&mut out_bytes, t.outputs[j].script.len() as u64);
        push_bytes(&mut out_bytes, &t.outputs[j].script);
        proof {
            assert(out_bytes@ =~= pre + encode_output(t.outputs.deep_view()[j as int]));
            assert(t.outputs.deep_view().take(j as int + 1) =~= t.outputs.deep_view().take(
                j as int,
            ).push(t.outputs.deep_view()[j as int]));
            lemma_encode_outputs_push(
                t.outputs.deep_view().take(j as int),
                t.outputs.deep_view()[j as int],
            );
        }
        j += 1;
    }
    proof {
        assert(t.outputs.deep_view().take(t.outputs.deep_view().len() as int) =~= t.outputs.deep_view());
    }
    let out_digest = sha256(&out_bytes);

    let mut pre: Vec<u8> = Vec::new();
    push_u32_le(&mut pre, t.version);
    push_u32_le(&mut pre, t.lock_time);
    push_u32_le(&mut pre, t.sequences.len() as u32);
    push_bytes(&mut pre, &seq_digest);
    push_u32_le(&mut pre, t.outputs.len() as u32);
    push_bytes(&mut pre, &out_digest);
    push_u32_le(&mut pre, t.input_index);
    proof {
        assert(pre@ =~= template_preimage(t@));
    }
    sha256(&pre)
}

} // verus!
