//! Pool tree builder.
//!
//! Builds the full tree of taproot pool nodes bottom-up, from the terminal
//! two-user layer up to the single root that holds all N users' funds,
//! covering every permutation in which users may withdraw.  Leaf ordering
//! inside a node is fixed (ascending participant index), so rebuilding the
//! tree from the same participant list yields identical addresses and
//! commitments.

use vstd::prelude::*;
use crate::encode::{copy_bytes};
use crate::errors::BuildError;
use crate::paths::{
    valid_path, remaining_from, remaining_users, paths_of_len, lemma_remaining_len,
    lemma_remaining_membership, lemma_valid_push, lemma_paths_sound,
    lemma_paths_complete, remaining_users_exec, paths_equal, extend_layer, copy_usizes,
    extend_all,
};
use crate::script::{
    leaf_script_spec, p2tr_script_spec, nums_point_spec, build_leaf, p2tr_script,
};
use crate::taproot::{taproot_key_of, control_block_of, compile_node};
use crate::template::{
    TxOutput, TxOutputV, TxTemplate, TxTemplateV, template_hash, commit_template,
};
use vstd::arithmetic::mul::lemma_mul_inequality;
use vstd::arithmetic::mul::lemma_mul_nonnegative;

verus! {

/// The transaction version every committed shape uses.
pub const TX_VERSION: u32 = 2;

/// The sequence number every committed input uses: replaceable, no lock time.
pub const SEQUENCE_RBF: u32 = 0xffff_fffd;

/// The immutable pool constants, in satoshis.
#[derive(Clone, Copy, Debug, PartialEq, Eq, Structural)]
pub struct PoolConfig {
    /// Each participant's equal share of the pool.
    pub amount_per_user: u64,
    /// The fixed per-step transaction fee, also the fee-anchor output value.
    pub fee_amount: u64,
    /// The dust threshold a withdrawal must clear.
    pub dust_amount: u64,
}

/// The immutable inputs of tree construction: each participant's withdrawal
/// script, the fee-anchor script, and the pool constants.
pub struct PoolParams {
    pub users: Vec<Vec<u8>>,
    pub anchor_script: Vec<u8>,
    pub config: PoolConfig,
}

#[verifier::ext_equal]
pub struct PoolParamsV {
    pub users: Seq<Seq<u8>>,
    pub anchor_script: Seq<u8>,
    pub config: PoolConfig,
}

impl View for PoolParams {
    type V = PoolParamsV;

    open spec fn view(&self) -> PoolParamsV {
        PoolParamsV {
            users: self.users.deep_view(),
            anchor_script: self.anchor_script@,
            config: self.config,
        }
    }
}

/// A configuration the builder accepts: at least three participants, a share
/// that clears fee plus dust, a pooled total that fits in 64 bits, and
/// accumulated per-step fees that never exceed one share.
pub open spec fn config_ok(pr: PoolParamsV) -> bool {
    let n = pr.users.len() as int;
    let s = pr.config.amount_per_user as int;
    let f = pr.config.fee_amount as int;
    let d = pr.config.dust_amount as int;
    &&& n >= 3
    &&& s > f + d
    &&& n * s <= u64::MAX as int
    &&& (n - 1) * f <= s
}

/// The value of the pool output being spent after `k` users have exited:
/// each exit removes one share and one fee.
pub open spec fn input_value(pr: PoolParamsV, k: int) -> int {
    let n = pr.users.len() as int;
    let s = pr.config.amount_per_user as int;
    let f = pr.config.fee_amount as int;
    n * s - k * (s + f)
}

pub proof fn lemma_input_value_bounds(pr: PoolParamsV, k: int)
    requires
        config_ok(pr),
        0 <= k <= pr.users.len() - 1,
    ensures
        0 <= input_value(pr, k) <= u64::MAX,
{
    let n = pr.users.len() as int;
    let s = pr.config.amount_per_user as int;
    let f = pr.config.fee_amount as int;
    lemma_mul_nonnegative(k, s + f);
    lemma_mul_inequality(k, n - 1, s + f);
    assert((n - 1) * (s + f) == n * s - s + (n - 1) * f) by (nonlinear_arith);
}

pub proof fn lemma_input_value_step(pr: PoolParamsV, k: int)
    ensures
        input_value(pr, k + 1) == input_value(pr, k) - (pr.config.amount_per_user
            + pr.config.fee_amount),
{
    let s = pr.config.amount_per_user as int;
    let f = pr.config.fee_amount as int;
    assert((k + 1) * (s + f) == k * (s + f) + (s + f)) by (nonlinear_arith);
}

/// Computes the input value at exit depth `k` in 64-bit satoshis.
pub fn input_value_exec(pr: &PoolParams, k: usize) -> (r: u64)
    requires
        config_ok(pr@),
        k + 1 <= pr@.users.len(),
    ensures
        r == input_value(pr@, k as int),
{
    let n = pr.users.len();
    let s = pr.config.amount_per_user;
    let f = pr.config.fee_amount;
    proof {
        lemma_input_value_bounds(pr@, k as int);
        let ni = n as int;
        let si = s as int;
        let fi = f as int;
        let ki = k as int;
        lemma_mul_nonnegative(ki, si + fi);
        lemma_mul_inequality(ki, ni - 1, si + fi);
        assert((ni - 1) * (si + fi) == ni * si - si + (ni - 1) * fi) by (nonlinear_arith);
    }
    let total: u128 = (n as u128) * (s as u128);
    let step: u128 = (s as u128) + (f as u128);
    let spent: u128 = (k as u128) * step;
    (total - spent) as u64
}

/// Checks the pool configuration, rejecting it before any tree work begins.
pub fn validate_params(pr: &PoolParams) -> (r: Result<(), BuildError>)
    ensures
        r is Ok <==> config_ok(pr@),
        (pr@.users.len() < 3) <==> r == Err::<(), BuildError>(BuildError::TooFewUsers),
        (pr@.users.len() >= 3 && !(pr@.config.amount_per_user as int > pr@.config.fee_amount as int
            + pr@.config.dust_amount as int)) <==> r == Err::<(), BuildError>(
            BuildError::ShareTooSmall,
        ),
        (pr@.users.len() >= 3 && pr@.config.amount_per_user as int > pr@.config.fee_amount as int
            + pr@.config.dust_amount as int && (pr@.users.len() as int)
            * (pr@.config.amount_per_user as int) > u64::MAX as int) <==> r == Err::<(),
            BuildError,
        >(BuildError::TotalOverflow),
        (pr@.users.len() >= 3 && pr@.config.amount_per_user as int > pr@.config.fee_amount as int
            + pr@.config.dust_amount as int && (pr@.users.len() as int)
            * (pr@.config.amount_per_user as int) <= u64::MAX as int && (pr@.users.len() as int
            - 1) * (pr@.config.fee_amount as int) > pr@.config.amount_per_user as int) <==> r
            == Err::<(), BuildError>(BuildError::FeesExceedShare),
{
    let n = pr.users.len();
    let s = pr.config.amount_per_user;
    let f = pr.config.fee_amount;
    let d = pr.config.dust_amount;
    if n < 3 {
        return Err(BuildError::TooFewUsers);
    }
    if (s as u128) <= (f as u128) + (d as u128) {
        return Err(BuildError::ShareTooSmall);
    }
    proof {
        lemma_mul_nonnegative(n as int, s as int);
        assert((n as int) * (s as int) <= (u64::MAX as int) * (u64::MAX as int))
            by (nonlinear_arith)
            requires
                0 <= n as int <= u64::MAX as int,
                0 <= s as int <= u64::MAX as int,
        ;
    }
    if (n as u128) * (s as u128) > u64::MAX as u128 {
        return Err(BuildError::TotalOverflow);
    }
    proof {
        lemma_mul_nonnegative(n as int - 1, f as int);
        assert((n as int - 1) * (f as int) <= (u64::MAX as int) * (u64::MAX as int))
            by (nonlinear_arith)
            requires
                0 <= n as int - 1 <= u64::MAX as int,
                0 <= f as int <= u64::MAX as int,
        ;
    }
    if ((n - 1) as u128) * (f as u128) > s as u128 {
        return Err(BuildError::FeesExceedShare);
    }
    Ok(())
}

/// The committed shape of the transaction that spends the node at exit depth
/// `k` and lets `user` exit next: one input with the fixed sequence, and the
/// withdrawal, fee-anchor and continuation outputs.
pub open spec fn leaf_template_spec(pr: PoolParamsV, k: int, user: usize, cont_script: Seq<u8>) -> TxTemplateV {
    TxTemplateV {
        version: TX_VERSION,
        lock_time: 0,
        sequences: seq![SEQUENCE_RBF],
        outputs: seq![
            TxOutputV {
                value: (pr.config.amount_per_user - pr.config.fee_amount) as u64,
                script: pr.users[user as int],
            },
            TxOutputV { value: pr.config.fee_amount, script: pr.anchor_script },
            TxOutputV { value: input_value(pr, k + 1) as u64, script: cont_script },
        ],
        input_index: 0,
    }
}

/// The participant left behind when `user` exits from a terminal node.
pub open spec fn other_user(p: Seq<usize>, n: nat, user: usize) -> usize {
    if remaining_users(p, n)[0] == user {
        remaining_users(p, n)[1]
    } else {
        remaining_users(p, n)[0]
    }
}

/// The taproot output key of the pool node keyed by path `p`: the fixed
/// internal key committed to that node's covenant leaves.
pub open spec fn node_key(pr: PoolParamsV, p: Seq<usize>) -> Seq<u8>
    decreases pr.users.len() - p.len(), 3int, 0int,
{
    taproot_key_of(nums_point_spec(), leaf_scripts(pr, p))
}

/// The covenant leaf scripts of the node keyed by `p`, by ascending next
/// exiter.
pub open spec fn leaf_scripts(pr: PoolParamsV, p: Seq<usize>) -> Seq<Seq<u8>>
    decreases pr.users.len() - p.len(), 2int, pr.users.len() + 1,
{
    leaf_scripts_from(pr, p, 0)
}

pub open spec fn leaf_scripts_from(pr: PoolParamsV, p: Seq<usize>, lo: nat) -> Seq<Seq<u8>>
    decreases pr.users.len() - p.len(), 2int, pr.users.len() - lo,
{
    if lo >= pr.users.len() {
        Seq::empty()
    } else if p.contains(lo as usize) {
        leaf_scripts_from(pr, p, (lo + 1) as nat)
    } else {
        seq![leaf_script_spec(leaf_commitment_spec(pr, p, lo as usize))] + leaf_scripts_from(
            pr,
            p,
            (lo + 1) as nat,
        )
    }
}

/// The template commitment of the leaf that lets `user` exit next from the
/// node keyed by `p`.
pub open spec fn leaf_commitment_spec(pr: PoolParamsV, p: Seq<usize>, user: usize) -> Seq<u8>
    decreases pr.users.len() - p.len(), 1int, 0int,
{
    template_hash(leaf_template_spec(pr, p.len() as int, user, cont_script_spec(pr, p, user)))
}

/// Where the non-withdrawn remainder goes when `user` exits from the node
/// keyed by `p`: at the terminal layer, straight to the other remaining
/// participant; above it, to the child pool node keyed by `p` plus `user`.
pub open spec fn cont_script_spec(pr: PoolParamsV, p: Seq<usize>, user: usize) -> Seq<u8>
    decreases pr.users.len() - p.len(), 0int, 0int,
{
    if p.len() + 2 == pr.users.len() {
        pr.users[other_user(p, pr.users.len(), user) as int]
    } else if p.len() + 2 < pr.users.len() {
        p2tr_script_spec(node_key(pr, p.push(user)))
    } else {
        Seq::empty()
    }
}

pub proof fn lemma_leaf_scripts_align(pr: PoolParamsV, p: Seq<usize>, lo: nat)
    ensures
        leaf_scripts_from(pr, p, lo).len() == remaining_from(p, pr.users.len(), lo).len(),
        forall|j: int|
            0 <= j < remaining_from(p, pr.users.len(), lo).len() ==> leaf_scripts_from(pr, p, lo)[j]
                == leaf_script_spec(
                leaf_commitment_spec(pr, p, remaining_from(p, pr.users.len(), lo)[j]),
            ),
    decreases pr.users.len() - lo,
{
    let n = pr.users.len();
    if lo < n {
        lemma_leaf_scripts_align(pr, p, (lo + 1) as nat);
        if !p.contains(lo as usize) {
            let ls = leaf_scripts_from(pr, p, lo);
            let rem = remaining_from(p, n, lo);
            let ls1 = leaf_scripts_from(pr, p, (lo + 1) as nat);
            let rem1 = remaining_from(p, n, (lo + 1) as nat);
            assert forall|j: int| 0 <= j < rem.len() implies ls[j] == leaf_script_spec(
                leaf_commitment_spec(pr, p, rem[j]),
            ) by {
                if j > 0 {
                    assert(ls[j] == ls1[j - 1]);
                    assert(rem[j] == rem1[j - 1]);
                }
            }
        }
    }
}

/// One covenant leaf of a built pool node: the participant it lets exit, the
/// template commitment, the leaf script, and the control block proving
/// script-path membership.
pub struct PoolLeaf {
    pub user: usize,
    pub commitment: Vec<u8>,
    pub script: Vec<u8>,
    pub control_block: Vec<u8>,
}

#[verifier::ext_equal]
pub struct PoolLeafV {
    pub user: usize,
    pub commitment: Seq<u8>,
    pub script: Seq<u8>,
    pub control_block: Seq<u8>,
}

impl View for PoolLeaf {
    type V = PoolLeafV;

    open spec fn view(&self) -> PoolLeafV {
        PoolLeafV {
            user: self.user,
            commitment: self.commitment@,
            script: self.script@,
            control_block: self.control_block@,
        }
    }
}

impl DeepView for PoolLeaf {
    type V = PoolLeafV;

    open spec fn deep_view(&self) -> PoolLeafV {
        self@
    }
}

/// One pool node: the exit path that reaches it, its covenant leaves by
/// ascending next exiter, and its taproot output key.
pub struct PoolNode {
    pub path: Vec<usize>,
    pub leaves: Vec<PoolLeaf>,
    pub output_key: Vec<u8>,
}

#[verifier::ext_equal]
pub struct PoolNodeV {
    pub path: Seq<usize>,
    pub leaves: Seq<PoolLeafV>,
    pub output_key: Seq<u8>,
}

impl View for PoolNode {
    type V = PoolNodeV;

    open spec fn view(&self) -> PoolNodeV {
        PoolNodeV {
            path: self.path@,
            leaves: self.leaves.deep_view(),
            output_key: self.output_key@,
        }
    }
}

impl DeepView for PoolNode {
    type V = PoolNodeV;

    open spec fn deep_view(&self) -> PoolNodeV {
        self@
    }
}

/// The whole pool tree: the parameters it was built from, and one layer per
/// depth.  Depth 0 is the terminal two-user layer; depth N-2 holds the single
/// root node, so a node at depth `d` is keyed by a path of length `N-2-d`.
pub struct PoolTree {
    pub params: PoolParams,
    pub layers: Vec<Vec<PoolNode>>,
}

#[verifier::ext_equal]
pub struct PoolTreeV {
    pub params: PoolParamsV,
    pub layers: Seq<Seq<PoolNodeV>>,
}

impl View for PoolTree {
    type V = PoolTreeV;

    open spec fn view(&self) -> PoolTreeV {
        PoolTreeV { params: self.params@, layers: self.layers.deep_view() }
    }
}

/// The path length of nodes at depth `d`.
pub open spec fn layer_path_len(n: nat, d: int) -> nat {
    (n - 2 - d) as nat
}

/// Structural well-formedness of one node: one leaf per remaining
/// participant, ascending, each script of covenant shape, and a 32-byte
/// output key.
pub open spec fn wf_node_struct(pr: PoolParamsV, nv: PoolNodeV) -> bool {
    let rem = remaining_users(nv.path, pr.users.len());
    &&& nv.leaves.len() == rem.len()
    &&& forall|j: int| 0 <= j < rem.len() ==> (#[trigger] nv.leaves[j]).user == rem[j]
    &&& forall|j: int|
        0 <= j < rem.len() ==> (#[trigger] nv.leaves[j]).commitment.len() == 32
            && nv.leaves[j].script == leaf_script_spec(nv.leaves[j].commitment)
    &&& nv.output_key.len() == 32
}

/// Cryptographic well-formedness of one node: the stored commitments, output
/// key and control blocks are exactly the ones the specification functions
/// demand for its path.
pub open spec fn wf_node_crypto(pr: PoolParamsV, nv: PoolNodeV) -> bool {
    let rem = remaining_users(nv.path, pr.users.len());
    &&& nv.output_key == node_key(pr, nv.path)
    &&& forall|j: int|
        0 <= j < rem.len() ==> (#[trigger] nv.leaves[j]).commitment == leaf_commitment_spec(
            pr,
            nv.path,
            rem[j],
        ) && nv.leaves[j].control_block == control_block_of(
            nums_point_spec(),
            leaf_scripts(pr, nv.path),
            j,
        )
}

/// One layer holds exactly the enumerated paths of its length, in the fixed
/// order, each node fully well formed.
pub open spec fn layer_ok(pr: PoolParamsV, layer: Seq<PoolNodeV>, plen: nat) -> bool {
    &&& layer.len() == paths_of_len(pr.users.len(), plen).len()
    &&& forall|j: int|
        0 <= j < layer.len() ==> (#[trigger] layer[j]).path == paths_of_len(pr.users.len(), plen)[j]
            && wf_node_struct(pr, layer[j]) && wf_node_crypto(pr, layer[j])
}

/// Structural well-formedness of the whole tree, free of any assumption
/// about the hashing and taproot primitives: an accepted configuration and
/// one complete layer per depth with aligned paths and leaf sets.
pub open spec fn wf_tree_struct(tv: PoolTreeV) -> bool {
    let n = tv.params.users.len();
    &&& config_ok(tv.params)
    &&& tv.layers.len() == n - 1
    &&& forall|d: int|
        0 <= d < tv.layers.len() ==> (#[trigger] tv.layers[d]).len() == paths_of_len(
            n,
            layer_path_len(n, d),
        ).len()
    &&& forall|d: int, j: int|
        0 <= d < tv.layers.len() && 0 <= j < tv.layers[d].len() ==> (#[trigger] tv.layers[d][j]).path
            == paths_of_len(n, layer_path_len(n, d))[j] && wf_node_struct(
            tv.params,
            tv.layers[d][j],
        )
}

/// Full well-formedness: structure plus the cryptographic pinning of every
/// commitment, output key and control block.
pub open spec fn wf_tree(tv: PoolTreeV) -> bool {
    &&& wf_tree_struct(tv)
    &&& forall|d: int, j: int|
        0 <= d < tv.layers.len() && 0 <= j < tv.layers[d].len() ==> wf_node_crypto(
            tv.params,
            #[trigger] tv.layers[d][j],
        )
}

/// Finds the node keyed by `p` within one layer.
pub fn find_path_index(layer: &Vec<PoolNode>, p: &Vec<usize>) -> (r: Option<usize>)
    ensures
        r matches Some(j) ==> (j as int) < layer@.len() && layer@[j as int]@.path == p@,
        r is None ==> forall|j: int| 0 <= j < layer@.len() ==> (#[trigger] layer@[j])@.path != p@,
{
    let mut j: usize = 0;
    while j < layer.len()
        invariant
            j <= layer@.len(),
            forall|i: int| 0 <= i < j ==> (#[trigger] layer@[i])@.path != p@,
        decreases layer@.len() - j,
    {
        if paths_equal(&layer[j].path, p) {
            return Some(j);
        }
        j += 1;
    }
    None
}

/// Builds the transaction shape for one covenant leaf.
pub fn make_leaf_template(pr: &PoolParams, k: usize, user: usize, cont_script: Vec<u8>) -> (t:
    TxTemplate)
    requires
        config_ok(pr@),
        k + 2 <= pr@.users.len(),
        (user as int) < pr@.users.len(),
    ensures
        t@ == leaf_template_spec(pr@, k as int, user, cont_script@),
{
    let n = pr.users.len();
    let s = pr.config.amount_per_user;
    let f = pr.config.fee_amount;
    proof {
        assert(k + 2 <= n);
    }
    let cont_value = input_value_exec(pr, k + 1);
    proof {
        lemma_input_value_bounds(pr@, k as int + 1);
    }
    let withdraw = s - f;
    let user_script = copy_bytes(&pr.users[user]);
    let anchor = copy_bytes(&pr.anchor_script);
    let outputs: Vec<TxOutput> = vec![
        TxOutput { value: withdraw, script: user_script },
        TxOutput { value: f, script: anchor },
        TxOutput { value: cont_value, script: cont_script },
    ];
    let sequences: Vec<u32> = vec![SEQUENCE_RBF];
    let t = TxTemplate {
        version: TX_VERSION,
        lock_time: 0,
        sequences,
        outputs,
        input_index: 0,
    };
    proof {
        let m = leaf_template_spec(pr@, k as int, user, cont_script@);
        assert(t@.sequences =~= m.sequences);
        assert(pr@.users[user as int] =~= pr.users@[user as int]@);
        assert(t@.outputs[0] =~~= m.outputs[0]);
        assert(t@.outputs[1] =~~= m.outputs[1]);
        assert(t@.outputs[2] =~~= m.outputs[2]);
        assert(t@.outputs =~~= m.outputs);
        assert(t@ =~~= m);
    }
    t
}

/// Builds one pool node: its covenant leaves (one per remaining
/// participant), their commitments, and the compiled taproot output.
fn build_node(pr: &PoolParams, path: &Vec<usize>, child_layer: &Vec<PoolNode>) -> (nd: PoolNode)
    requires
        config_ok(pr@),
        valid_path(path@, pr@.users.len()),
        path@.len() + 2 <= pr@.users.len(),
        path@.len() + 2 < pr@.users.len() ==> layer_ok(
            pr@,
            child_layer.deep_view(),
            (path@.len() + 1) as nat,
        ),
    ensures
        nd@.path == path@,
        wf_node_struct(pr@, nd@),
        wf_node_crypto(pr@, nd@),
{
    let n = pr.users.len();
    let k = path.len();
    let rem = remaining_users_exec(path, n);
    proof {
        lemma_remaining_len(path@, n as nat);
        lemma_remaining_membership(path@, n as nat, 0);
    }
    let mut scripts: Vec<Vec<u8>> = Vec::new();
    let mut commitments: Vec<Vec<u8>> = Vec::new();
    let mut idx: usize = 0;
    while idx < rem.len()
        invariant
            idx <= rem@.len(),
            config_ok(pr@),
            valid_path(path@, pr@.users.len()),
            n == pr@.users.len(),
            k == path@.len(),
            k + 2 <= n,
            rem@ == remaining_users(path@, n as nat),
            rem@.len() == n - k,
            forall|v: usize| #[trigger]
                rem@.contains(v) <==> (v < n && !path@.contains(v)),
            k + 2 < n ==> layer_ok(pr@, child_layer.deep_view(), (k + 1) as nat),
            scripts@.len() == idx,
            commitments@.len() == idx,
            forall|j: int|
                0 <= j < idx ==> (#[trigger] commitments@[j])@ == leaf_commitment_spec(
                    pr@,
                    path@,
                    rem@[j],
                ) && commitments@[j]@.len() == 32,
            forall|j: int|
                0 <= j < idx ==> (#[trigger] scripts@[j])@ == leaf_script_spec(commitments@[j]@),
        decreases rem@.len() - idx,
    {
        let u = rem[idx];
        proof {
            assert(rem@.contains(u));
        }
        let cont_script: Vec<u8> = if k + 2 == n {
            let other = if rem[0] == u {
                rem[1]
            } else {
                rem[0]
            };
            proof {
                assert(rem@.contains(other));
                assert(other == other_user(path@, n as nat, u));
                assert(pr@.users[other as int] =~= pr.users@[other as int]@);
            }
            copy_bytes(&pr.users[other])
        } else {
            let mut cp = copy_usizes(path);
            cp.push(u);
            proof {
                lemma_valid_push(path@, n as nat, u);
                lemma_paths_complete(n as nat, (k + 1) as nat, cp@);
            }
            let j = match find_path_index(child_layer, &cp) {
                Some(j) => j,
                None => {
                    proof {
                        let ps = paths_of_len(n as nat, (k + 1) as nat);
                        let i = choose|i: int| 0 <= i < ps.len() && ps[i] == cp@;
                        assert(child_layer.deep_view()[i].path == cp@);
                        assert(child_layer@[i]@.path == cp@);
                        assert(false);
                    }
                    vstd::pervasive::unreached()
                },
            };
            proof {
                assert(child_layer.deep_view()[j as int] == child_layer@[j as int]@);
                assert(wf_node_crypto(pr@, child_layer.deep_view()[j as int]));
                assert(child_layer@[j as int]@.output_key == node_key(pr@, cp@));
            }
            let child_key = copy_bytes(&child_layer[j].output_key);
            p2tr_script(&child_key)
        };
        proof {
            assert(cont_script@ == cont_script_spec(pr@, path@, u));
        }
        let t = make_leaf_template(pr, k, u, cont_script);
        proof {
            assert(t@.outputs.len() == 3);
            assert(t.outputs@.len() == t@.outputs.len());
            assert(t.sequences@.len() == t@.sequences.len());
        }
        let c = commit_template(&t);
        proof {
            assert(c@ == leaf_commitment_spec(pr@, path@, u));
        }
        let ls = build_leaf(&c);
        commitments.push(c);
        scripts.push(ls);
        idx += 1;
    }
    proof {
        lemma_leaf_scripts_align(pr@, path@, 0);
        assert(leaf_scripts(pr@, path@) == leaf_scripts_from(pr@, path@, 0));
        assert forall|j: int|
            0 <= j < rem@.len() implies scripts.deep_view()[j] == leaf_scripts_from(
            pr@,
            path@,
            0,
        )[j] by {
            assert(scripts.deep_view()[j] =~= scripts@[j]@);
        }
        assert(scripts.deep_view() =~= leaf_scripts_from(pr@, path@, 0));
    }
    let compiled = match compile_node(&scripts) {
        Ok(c) => c,
        Err(_) => {
            proof {
                assert(false);
            }
            vstd::pervasive::unreached()
        },
    };
    let mut leaves: Vec<PoolLeaf> = Vec::new();
    let mut j2: usize = 0;
    while j2 < rem.len()
        invariant
            j2 <= rem@.len(),
            n == pr@.users.len(),
            k == path@.len(),
            rem@ == remaining_users(path@, n as nat),
            commitments@.len() == rem@.len(),
            scripts@.len() == rem@.len(),
            compiled.control_blocks@.len() == rem@.len(),
            scripts.deep_view() == leaf_scripts(pr@, path@),
            forall|j: int|
                0 <= j < rem@.len() ==> (#[trigger] commitments@[j])@ == leaf_commitment_spec(
                    pr@,
                    path@,
                    rem@[j],
                ) && commitments@[j]@.len() == 32,
            forall|j: int|
                0 <= j < rem@.len() ==> (#[trigger] scripts@[j])@ == leaf_script_spec(
                    commitments@[j]@,
                ),
            forall|j: int|
                0 <= j < rem@.len() ==> (#[trigger] compiled.control_blocks@[j])@
                    == control_block_of(nums_point_spec(), leaf_scripts(pr@, path@), j),
            leaves@.len() == j2,
            forall|j: int|
                0 <= j < j2 ==> (#[trigger] leaves@[j])@ == (PoolLeafV {
                    user: rem@[j],
                    commitment: commitments@[j]@,
                    script: scripts@[j]@,
                    control_block: compiled.control_blocks@[j]@,
                }),
        decreases rem@.len() - j2,
    {
        leaves.push(
            PoolLeaf {
                user: rem[j2],
                commitment: copy_bytes(&commitments[j2]),
                script: copy_bytes(&scripts[j2]),
                control_block: copy_bytes(&compiled.control_blocks[j2]),
            },
        );
        j2 += 1;
    }
    let nd = PoolNode { path: copy_usizes(path), leaves, output_key: compiled.output_key };
    proof {
        assert(wf_node_struct(pr@, nd@)) by {
            assert(nd@.leaves.len() == remaining_users(nd@.path, pr@.users.len()).len());
            assert forall|j: int| 0 <= j < rem@.len() implies (#[trigger] nd@.leaves[j]).user
                == rem@[j] && nd@.leaves[j].commitment.len() == 32 && nd@.leaves[j].script
                == leaf_script_spec(nd@.leaves[j].commitment) by {
                assert(nd@.leaves[j] == leaves@[j]@);
            }
        }
        assert(wf_node_crypto(pr@, nd@)) by {
            assert(nd@.output_key == node_key(pr@, path@));
            assert forall|j: int| 0 <= j < rem@.len() implies (#[trigger] nd@.leaves[j]).commitment
                == leaf_commitment_spec(pr@, nd@.path, rem@[j]) && nd@.leaves[j].control_block
                == control_block_of(nums_point_spec(), leaf_scripts(pr@, nd@.path), j) by {
                assert(nd@.leaves[j] == leaves@[j]@);
            }
        }
    }
    nd
}

/// Builds the whole pool tree bottom-up: the terminal layer first, then each
/// layer above it, finishing with the single root node that the pool is
/// funded against.  An invalid configuration is rejected before any tree
/// work.
pub fn build_pool_tree(users: Vec<Vec<u8>>, anchor_script: Vec<u8>, config: PoolConfig) -> (r:
    Result<PoolTree, BuildError>)
    ensures
        r is Ok <==> config_ok(
            (PoolParamsV { users: users.deep_view(), anchor_script: anchor_script@, config }),
        ),
        r matches Ok(t) ==> t@.params == (PoolParamsV {
            users: users.deep_view(),
            anchor_script: anchor_script@,
            config,
        }) && wf_tree(t@),
        (users.deep_view().len() < 3) <==> r == Err::<PoolTree, BuildError>(
            BuildError::TooFewUsers,
        ),
        (users.deep_view().len() >= 3 && !(config.amount_per_user as int > config.fee_amount as int
            + config.dust_amount as int)) <==> r == Err::<PoolTree, BuildError>(
            BuildError::ShareTooSmall,
        ),
        (users.deep_view().len() >= 3 && config.amount_per_user as int > config.fee_amount as int
            + config.dust_amount as int && (users.deep_view().len() as int)
            * (config.amount_per_user as int) > u64::MAX as int) <==> r == Err::<
            PoolTree,
            BuildError,
        >(BuildError::TotalOverflow),
        (users.deep_view().len() >= 3 && config.amount_per_user as int > config.fee_amount as int
            + config.dust_amount as int && (users.deep_view().len() as int)
            * (config.amount_per_user as int) <= u64::MAX as int && (users.deep_view().len() as int
            - 1) * (config.fee_amount as int) > config.amount_per_user as int) <==> r == Err::<
            PoolTree,
            BuildError,
        >(BuildError::FeesExceedShare),
{
    let pr = PoolParams { users, anchor_script, config };
    match validate_params(&pr) {
        Ok(_) => {},
        Err(e) => {
            return Err(e);
        },
    }
    let n = pr.users.len();
    let mut paths_by_len: Vec<Vec<Vec<usize>>> = Vec::new();
    let mut first: Vec<Vec<usize>> = Vec::new();
    first.push(Vec::new());
    proof {
        assert(first.deep_view()[0] =~= Seq::<usize>::empty());
        assert(first.deep_view() =~= paths_of_len(n as nat, 0));
    }
    paths_by_len.push(first);
    let mut k: usize = 1;
    while k <= n - 2
        invariant
            1 <= k <= n - 1,
            n == pr@.users.len(),
            n >= 3,
            paths_by_len@.len() == k,
            forall|i: int|
                0 <= i < k ==> (#[trigger] paths_by_len@[i]).deep_view() == paths_of_len(
                    n as nat,
                    i as nat,
                ),
        decreases n - 1 - k,
    {
        let next = extend_layer(&paths_by_len[k - 1], n);
        proof {
            assert(next.deep_view() == extend_all(paths_of_len(n as nat, (k - 1) as nat), n as nat));
            assert(next.deep_view() == paths_of_len(n as nat, k as nat));
        }
        paths_by_len.push(next);
        k += 1;
    }
    let mut layers: Vec<Vec<PoolNode>> = Vec::new();
    let empty_child: Vec<PoolNode> = Vec::new();
    let mut d: usize = 0;
    while d < n - 1
        invariant
            d <= n - 1,
            n == pr@.users.len(),
            n >= 3,
            config_ok(pr@),
            pr@ == (PoolParamsV {
                users: users.deep_view(),
                anchor_script: anchor_script@,
                config,
            }),
            paths_by_len@.len() == n - 1,
            forall|i: int|
                0 <= i < n - 1 ==> (#[trigger] paths_by_len@[i]).deep_view() == paths_of_len(
                    n as nat,
                    i as nat,
                ),
            layers@.len() == d,
            forall|d2: int|
                0 <= d2 < d ==> layer_ok(
                    pr@,
                    (#[trigger] layers@[d2]).deep_view(),
                    layer_path_len(n as nat, d2),
                ),
        decreases n - 1 - d,
    {
        let kk = n - 2 - d;
        proof {
            lemma_paths_sound(n as nat, kk as nat);
            assert(paths_by_len@[kk as int].deep_view() == paths_of_len(n as nat, kk as nat));
        }
        let mut layer: Vec<PoolNode> = Vec::new();
        let mut idx: usize = 0;
        while idx < paths_by_len[kk].len()
            invariant
                n == pr@.users.len(),
                n >= 3,
                config_ok(pr@),
                pr@ == (PoolParamsV {
                    users: users.deep_view(),
                    anchor_script: anchor_script@,
                    config,
                }),
                d < n - 1,
                kk == n - 2 - d,
                paths_by_len@.len() == n - 1,
                forall|i: int|
                    0 <= i < n - 1 ==> (#[trigger] paths_by_len@[i]).deep_view() == paths_of_len(
                        n as nat,
                        i as nat,
                    ),
                layers@.len() == d,
                forall|d2: int|
                    0 <= d2 < d ==> layer_ok(
                        pr@,
                        (#[trigger] layers@[d2]).deep_view(),
                        layer_path_len(n as nat, d2),
                    ),
                idx <= paths_of_len(n as nat, kk as nat).len(),
                forall|i: int|
                    0 <= i < paths_of_len(n as nat, kk as nat).len() ==> valid_path(
                        #[trigger] paths_of_len(n as nat, kk as nat)[i],
                        n as nat,
                    ) && paths_of_len(n as nat, kk as nat)[i].len() == kk,
                layer@.len() == idx,
                forall|j: int|
                    0 <= j < idx ==> (#[trigger] layer@[j])@.path == paths_of_len(
                        n as nat,
                        kk as nat,
                    )[j] && wf_node_struct(pr@, layer@[j]@) && wf_node_crypto(pr@, layer@[j]@),
            decreases paths_of_len(n as nat, kk as nat).len() - idx,
        {
            let child = if d == 0 {
                &empty_child
            } else {
                &layers[d - 1]
            };
            proof {
                if d > 0 {
                    assert(layer_ok(
                        pr@,
                        layers@[d - 1].deep_view(),
                        layer_path_len(n as nat, d as int - 1),
                    ));
                    assert(layer_path_len(n as nat, d as int - 1) == (kk + 1) as nat);
                }
                assert(paths_by_len@[kk as int].deep_view()[idx as int] =~= paths_by_len@[
                    kk as int]@[idx as int]@);
            }
            let pk = &paths_by_len[kk];
            let nd = build_node(&pr, &pk[idx], child);
            layer.push(nd);
            idx += 1;
        }
        layers.push(layer);
        proof {
            assert forall|d2: int|
                0 <= d2 < d + 1 implies layer_ok(
                pr@,
                (#[trigger] layers@[d2]).deep_view(),
                layer_path_len(n as nat, d2),
            ) by {
                if d2 == d {
                    assert(layers@[d2].deep_view().len() == paths_of_len(
                        n as nat,
                        kk as nat,
                    ).len());
                    assert forall|j: int|
                        0 <= j < layers@[d2].deep_view().len() implies (#[trigger] layers@[
                    d2].deep_view()[j]).path == paths_of_len(
                        pr@.users.len(),
                        layer_path_len(n as nat, d2),
                    )[j] && wf_node_struct(pr@, layers@[d2].deep_view()[j]) && wf_node_crypto(
                        pr@,
                        layers@[d2].deep_view()[j],
                    ) by {
                        assert(layers@[d2].deep_view()[j] == layers@[d2]@[j]@);
                    }
                }
            }
        }
        d += 1;
    }
    let t = PoolTree { params: pr, layers };
    proof {
        assert(wf_tree_struct(t@)) by {
            assert(t@.layers.len() == n - 1);
            assert forall|dd: int, j: int|
                0 <= dd < t@.layers.len() && 0 <= j < t@.layers[dd].len() implies (#[trigger] t@
                .layers[dd][j]).path == paths_of_len(
                t@.params.users.len(),
                layer_path_len(n as nat, dd),
            )[j] && wf_node_struct(t@.params, t@.layers[dd][j]) by {
                assert(layer_ok(pr@, t@.layers[dd], layer_path_len(n as nat, dd)));
            }
            assert forall|dd: int|
                0 <= dd < t@.layers.len() implies (#[trigger] t@.layers[dd]).len() == paths_of_len(
                t@.params.users.len(),
                layer_path_len(n as nat, dd),
            ).len() by {
                assert(layer_ok(pr@, t@.layers[dd], layer_path_len(n as nat, dd)));
            }
        }
        assert forall|dd: int, j: int|
            0 <= dd < t@.layers.len() && 0 <= j < t@.layers[dd].len() implies wf_node_crypto(
            t@.params,
            #[trigger] t@.layers[dd][j],
        ) by {
            assert(layer_ok(pr@, t@.layers[dd], layer_path_len(n as nat, dd)));
        }
    }
    Ok(t)
}

} // verus!
