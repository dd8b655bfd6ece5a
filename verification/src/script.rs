//! Covenant script builder and the fixed scripts around it.
//!
//! A covenant leaf embeds exactly one template commitment and enforces that
//! the spending transaction's own template-relevant fields hash to it.  A
//! continuation output pays to a taproot output key; its script is the
//! standard pay-to-taproot form.

use vstd::prelude::*;
use crate::encode::push_bytes;

verus! {

pub const OP_PUSHBYTES_32: u8 = 0x20;

/// The covenant-check opcode (`OP_NOP4`, repurposed as
/// `OP_CHECKTEMPLATEVERIFY`).
pub const OP_CHECKTEMPLATEVERIFY: u8 = 0xb3;

pub const OP_DROP: u8 = 0x75;

pub const OP_PUSHNUM_1: u8 = 0x51;

/// The covenant leaf script: push the commitment, invoke the covenant check,
/// drop the commitment, accept.
pub open spec fn leaf_script_spec(commitment: Seq<u8>) -> Seq<u8> {
    seq![OP_PUSHBYTES_32] + commitment + seq![OP_CHECKTEMPLATEVERIFY, OP_DROP, OP_PUSHNUM_1]
}

/// The script of an output paying to a taproot output key.
pub open spec fn p2tr_script_spec(output_key: Seq<u8>) -> Seq<u8> {
    seq![OP_PUSHNUM_1, OP_PUSHBYTES_32] + output_key
}

/// Builds the covenant leaf script for one template commitment.
pub fn build_leaf(commitment: &Vec<u8>) -> (r: Vec<u8>)
    requires
        commitment@.len() == 32,
    ensures
        r@ == leaf_script_spec(commitment@),
{
    let mut s: Vec<u8> = Vec::new();
    s.push(OP_PUSHBYTES_32);
    push_bytes(&mut s, commitment);
    s.push(OP_CHECKTEMPLATEVERIFY);
    s.push(OP_DROP);
    s.push(OP_PUSHNUM_1);
    proof {
        assert(s@ =~= leaf_script_spec(commitment@));
    }
    s
}

/// Builds the pay-to-taproot script for an output key.
pub fn p2tr_script(output_key: &Vec<u8>) -> (r: Vec<u8>)
    requires
        output_key@.len() == 32,
    ensures
        r@ == p2tr_script_spec(output_key@),
{
    let mut s: Vec<u8> = Vec::new();
    s.push(OP_PUSHNUM_1);
    s.push(OP_PUSHBYTES_32);
    push_bytes(&mut s, output_key);
    proof {
        assert(s@ =~= p2tr_script_spec(output_key@));
    }
    s
}

/// The fixed "nothing up my sleeve" x-only public key used as every pool
/// node's taproot internal key, so that no one can ever key-path-spend a pool
/// output.
pub open spec fn nums_point_spec() -> Seq<u8> {
    seq![
        0x50u8, 0x92, 0x9b, 0x74, 0xc1, 0xa0, 0x49, 0x54, 0xb7, 0x8b, 0x4b, 0x60, 0x35, 0xe9,
        0x7a, 0x5e, 0x07, 0x8a, 0x5a, 0x0f, 0x28, 0xec, 0x96, 0xd5, 0x47, 0xbf, 0xee, 0x9a,
        0xce, 0x80, 0x3a, 0xc0,
    ]
}

pub fn nums_point() -> (r: Vec<u8>)
    ensures
        r@ == nums_point_spec(),
        r@.len() == 32,
{
    let r: Vec<u8> = vec![
        0x50u8, 0x92, 0x9b, 0x74, 0xc1, 0xa0, 0x49, 0x54, 0xb7, 0x8b, 0x4b, 0x60, 0x35, 0xe9,
        0x7a, 0x5e, 0x07, 0x8a, 0x5a, 0x0f, 0x28, 0xec, 0x96, 0xd5, 0x47, 0xbf, 0xee, 0x9a,
        0xce, 0x80, 0x3a, 0xc0,
    ];
    proof {
        assert(r@ =~= nums_point_spec());
    }
    r
}

} // verus!
