//! Taproot node compiler.
//!
//! Given the covenant script leaves of one pool node, builds the taproot
//! output: a fixed unspendable internal key plus a script-path Merkle tree
//! over the leaves, balanced to minimize the worst-case control-block size.
//! Returns the 32-byte output key and, per leaf, the control block needed
//! later to prove script-path membership.

use vstd::prelude::*;
use crate::errors::BuildError;
use crate::script::nums_point_spec;
use crate::script::nums_point;

verus! {

/// The taproot output key obtained by committing to the given leaf scripts
/// (equal-weight, depth-balanced tree) under the given internal key.  The
/// tweaking arithmetic is the taproot library's; only its determinism and
/// shape are assumed, through the trusted wrappers below.
pub uninterp spec fn taproot_key_of(internal_key: Seq<u8>, leaves: Seq<Seq<u8>>) -> Seq<u8>;

/// The serialized control block proving that the leaf at `leaf_index` is part
/// of the script tree described by `taproot_key_of` over the same arguments.
pub uninterp spec fn control_block_of(internal_key: Seq<u8>, leaves: Seq<Seq<u8>>, leaf_index: int) -> Seq<u8>;

/// Relies on `bitcoin::taproot::TaprootSpendInfo::with_huffman_tree` (equal
/// weights, so the tree is depth-balanced) and `TweakedPublicKey::serialize`:
/// the output key is a function of the internal key and the ordered leaf
/// scripts alone, and serializes to 32 bytes.  Success is owed under the
/// fixed internal key: `XOnlyPublicKey::from_slice` accepts the standard
/// unspendable point (a valid x-only key), `with_huffman_tree` refuses only
/// an empty leaf list or a tree deeper than 128 levels (an equal-weight tree
/// over at most `usize::MAX` leaves stays within 64), and `finalize` cannot
/// refuse a complete tree.
#[verifier::external_body]
fn taproot_output_key(internal_key: &Vec<u8>, leaves: &Vec<Vec<u8>>) -> (r: Option<Vec<u8>>)
    ensures
        r matches Some(k) ==> k@ == taproot_key_of(internal_key@, leaves.deep_view()) && k@.len()
            == 32,
        internal_key@ == nums_point_spec() && leaves@.len() > 0 ==> r is Some,
{
    let secp = bitcoin::secp256k1::Secp256k1::verification_only();
    let ik = bitcoin::XOnlyPublicKey::from_slice(internal_key.as_slice()).ok()?;
    let ws = leaves.iter().map(|l| (1u32, bitcoin::ScriptBuf::from_bytes(l.clone())));
    let info = bitcoin::taproot::TaprootSpendInfo::with_huffman_tree(&secp, ik, ws).ok()?;
    Some(info.output_key().serialize().to_vec())
}

/// Relies on `bitcoin::taproot::TaprootSpendInfo::with_huffman_tree` and
/// `TaprootSpendInfo::control_block` / `ControlBlock::serialize`: the control
/// block of one leaf is a function of the internal key, the ordered leaf
/// scripts and the leaf's index alone.  Success is owed under the fixed
/// internal key, as for the output key; `control_block` returns `Some` for
/// every script that was supplied to the builder.
#[verifier::external_body]
fn taproot_control_block(internal_key: &Vec<u8>, leaves: &Vec<Vec<u8>>, leaf_index: usize) -> (r:
    Option<Vec<u8>>)
    requires
        leaf_index < leaves.len(),
    ensures
        r matches Some(c) ==> c@ == control_block_of(
            internal_key@,
            leaves.deep_view(),
            leaf_index as int,
        ),
        internal_key@ == nums_point_spec() ==> r is Some,
{
    let secp = bitcoin::secp256k1::Secp256k1::verification_only();
    let ik = bitcoin::XOnlyPublicKey::from_slice(internal_key.as_slice()).ok()?;
    let ws = leaves.iter().map(|l| (1u32, bitcoin::ScriptBuf::from_bytes(l.clone())));
    let info = bitcoin::taproot::TaprootSpendInfo::with_huffman_tree(&secp, ik, ws).ok()?;
    let script = bitcoin::ScriptBuf::from_bytes(leaves[leaf_index].clone());
    let cb = info.control_block(&(script, bitcoin::taproot::LeafVersion::TapScript))?;
    Some(cb.serialize())
}

/// One compiled pool node: the taproot output key its address is built from,
/// and one control block per script leaf, in leaf order.
pub struct CompiledNode {
    pub output_key: Vec<u8>,
    pub control_blocks: Vec<Vec<u8>>,
}

/// Compiles one pool node's leaf set into a taproot output under the fixed
/// unspendable internal key.  A node with no admissible next transaction
/// cannot exist, so zero leaves fail fast; any other leaf set compiles.
pub fn compile_node(leaves: &Vec<Vec<u8>>) -> (r: Result<CompiledNode, BuildError>)
    ensures
        leaves@.len() == 0 <==> r == Err::<CompiledNode, BuildError>(BuildError::EmptyLeafSet),
        r is Ok <==> leaves@.len() > 0,
        r matches Ok(c) ==> {
            &&& c.output_key@ == taproot_key_of(nums_point_spec(), leaves.deep_view())
            &&& c.output_key@.len() == 32
            &&& c.control_blocks@.len() == leaves@.len()
            &&& forall|j: int|
                0 <= j < leaves@.len() ==> c.control_blocks@[j]@ == control_block_of(
                    nums_point_spec(),
                    leaves.deep_view(),
                    j,
                )
        },
{
    if leaves.len() == 0 {
        return Err(BuildError::EmptyLeafSet);
    }
    let ik = nums_point();
    let key = match taproot_output_key(&ik, leaves) {
        Some(k) => k,
        None => {
            proof {
                assert(false);
            }
            vstd::pervasive::unreached()
        },
    };
    let mut cbs: Vec<Vec<u8>> = Vec::new();
    let mut j: usize = 0;
    while j < leaves.len()
        invariant
            j <= leaves@.len(),
            cbs@.len() == j,
            ik@ == nums_point_spec(),
            forall|i: int|
                0 <= i < j ==> cbs@[i]@ == control_block_of(
                    nums_point_spec(),
                    leaves.deep_view(),
                    i,
                ),
        decreases leaves@.len() - j,
    {
        let cb = match taproot_control_block(&ik, leaves, j) {
            Some(c) => c,
            None => {
                proof {
                    assert(false);
                }
                vstd::pervasive::unreached()
            },
        };
        cbs.push(cb);
        j += 1;
    }
    Ok(CompiledNode { output_key: key, control_blocks: cbs })
}

} // verus!
