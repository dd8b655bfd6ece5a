//! The pool's global guarantees, stated and proved once over the
//! specification-level model that every contract in this crate uses.

use vstd::prelude::*;
use crate::paths::{
    valid_path, remaining_users, paths_of_len, lemma_paths_complete, lemma_valid_take,
};
use crate::template::{TxOutputV, template_hash};
use crate::tree::{
    PoolTreeV, PoolParamsV, wf_tree, wf_tree_struct, wf_node_struct, wf_node_crypto,
    layer_path_len, leaf_template_spec, leaf_commitment_spec, cont_script_spec, input_value,
    config_ok, lemma_input_value_step, lemma_input_value_bounds,
};
use crate::resolve::resolve_ok_spec;

verus! {

/// Determinism: two well-formed trees built from the same participant list
/// and constants are identical, layer by layer, leaf by leaf — byte-identical
/// output keys and commitments included.  Every field of a well-formed tree
/// is pinned to a function of the parameters alone, so independent rebuilds
/// cannot diverge.
pub proof fn lemma_tree_determinism(t1: PoolTreeV, t2: PoolTreeV)
    requires
        t1.params == t2.params,
        wf_tree(t1),
        wf_tree(t2),
    ensures
        t1 == t2,
{
    let pr = t1.params;
    let n = pr.users.len();
    assert forall|d: int| 0 <= d < t1.layers.len() implies t1.layers[d] =~~= t2.layers[d] by {
        assert forall|j: int| 0 <= j < t1.layers[d].len() implies #[trigger] t1.layers[d][j] =~~= t2
            .layers[d][j] by {
            let n1 = t1.layers[d][j];
            let n2 = t2.layers[d][j];
            assert(wf_node_struct(pr, n1) && wf_node_crypto(pr, n1));
            assert(wf_node_struct(pr, n2) && wf_node_crypto(pr, n2));
            assert(n1.path == n2.path);
            let rem = remaining_users(n1.path, n);
            assert forall|l: int| 0 <= l < rem.len() implies #[trigger] n1.leaves[l] =~~= n2.leaves[
            l] by {
                assert(n1.leaves[l].user == rem[l] && n2.leaves[l].user == rem[l]);
                assert(n1.leaves[l].commitment == leaf_commitment_spec(pr, n1.path, rem[l]));
                assert(n2.leaves[l].commitment == leaf_commitment_spec(pr, n2.path, rem[l]));
            }
            assert(n1.leaves =~~= n2.leaves);
        }
    }
    assert(t1.layers =~~= t2.layers);
    assert(t1 =~~= t2);
}

/// Commitment soundness: the digest a covenant leaf embeds is, by
/// construction, exactly the template hash of the transaction shape the
/// resolver later builds for that leaf; a resolved step can never produce a
/// shape the covenant rejects.
pub proof fn lemma_commitment_soundness(pr: PoolParamsV, p: Seq<usize>, user: usize)
    ensures
        leaf_commitment_spec(pr, p, user) == template_hash(
            leaf_template_spec(pr, p.len() as int, user, cont_script_spec(pr, p, user)),
        ),
{
}

/// Tree coverage: in a well-formed tree, every valid exit path short enough
/// to key a node is the path of exactly one pre-built node at its depth; no
/// reachable pool state is missing.
pub proof fn lemma_tree_coverage(tv: PoolTreeV, p: Seq<usize>)
    requires
        wf_tree_struct(tv),
        tv.params.users.len() <= usize::MAX,
        valid_path(p, tv.params.users.len()),
        p.len() + 2 <= tv.params.users.len(),
    ensures
        exists|j: int|
            0 <= j < tv.layers[tv.params.users.len() - 2 - p.len()].len() && (#[trigger] tv.layers[
            tv.params.users.len() - 2 - p.len()][j]).path == p,
{
    let n = tv.params.users.len();
    let d = n - 2 - p.len();
    lemma_paths_complete(n, p.len(), p);
    let ps = paths_of_len(n, layer_path_len(n, d as int));
    assert(layer_path_len(n, d as int) == p.len());
    let i = choose|i: int| 0 <= i < ps.len() && ps[i] == p;
    assert(tv.layers[d as int][i].path == p);
}

/// The total satoshi value of a sequence of outputs.
pub open spec fn output_sum(os: Seq<TxOutputV>) -> int
    decreases os.len(),
{
    if os.len() == 0 {
        0
    } else {
        os[0].value + output_sum(os.drop_first())
    }
}

/// Conservation: at every node, the withdrawal payment, the fee-anchor
/// payment and the continuation value together equal the node's input value
/// minus the fixed transaction fee.
pub proof fn lemma_conservation(pr: PoolParamsV, k: int, user: usize, cont_script: Seq<u8>)
    requires
        config_ok(pr),
        0 <= k,
        k + 2 <= pr.users.len(),
    ensures
        output_sum(leaf_template_spec(pr, k, user, cont_script).outputs) == input_value(pr, k)
            - pr.config.fee_amount,
{
    reveal_with_fuel(output_sum, 5);
    let os = leaf_template_spec(pr, k, user, cont_script).outputs;
    lemma_input_value_step(pr, k);
    lemma_input_value_bounds(pr, k + 1);
    assert(os.drop_first() =~= seq![os[1], os[2]]);
    assert(os.drop_first().drop_first() =~= seq![os[2]]);
    assert(seq![os[2]].drop_first() =~= Seq::<TxOutputV>::empty());
    assert(output_sum(seq![os[2]].drop_first()) == 0);
    assert(output_sum(os) == os[0].value + os[1].value + os[2].value);
}

/// Terminal reachability: starting from the funded root, any permutation of
/// the participants can be settled; each of the first N-1 steps along the
/// permutation is accepted by the resolver, and the step that starts from a
/// path of length N-2 is the terminal one, so the terminal layer is reached
/// in exactly N-1 steps.
pub proof fn lemma_terminal_reachability(pr: PoolParamsV, perm: Seq<usize>)
    requires
        perm.len() == pr.users.len(),
        forall|i: int| 0 <= i < perm.len() ==> ((#[trigger] perm[i]) as int) < pr.users.len(),
        perm.no_duplicates(),
    ensures
        forall|i: int|
            0 <= i < pr.users.len() - 1 ==> resolve_ok_spec(pr, perm.take(i), #[trigger] perm[i]),
{
    let n = pr.users.len();
    assert forall|i: int| 0 <= i < n - 1 implies resolve_ok_spec(pr, perm.take(i), #[trigger] perm[
    i]) by {
        assert(valid_path(perm, n));
        lemma_valid_take(perm, n, i);
        if perm.take(i).contains(perm[i]) {
            let j = choose|j: int| 0 <= j < i && perm.take(i)[j] == perm[i];
            assert(perm[j] == perm[i]);
            assert(false);
        }
    }
}

} // verus!
