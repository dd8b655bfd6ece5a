//! Spend path resolver.
//!
//! At settlement time, given the sequence of users who have already exited
//! and the user exiting next, locates the pre-built pool node, constructs
//! the transaction shape the node's commitment expects, and hands back the
//! witness data (covenant leaf script plus control block) needed to satisfy
//! the covenant.  The shape it builds hashes to exactly the digest embedded
//! in the selected leaf: that is the correctness property the whole tree
//! exists to guarantee.

use vstd::prelude::*;
use crate::encode::copy_bytes;
use crate::errors::ResolveError;
use crate::paths::{
    valid_path, remaining_users, lemma_remaining_len, lemma_remaining_membership,
    lemma_paths_sound, lemma_paths_complete, lemma_valid_push, vec_contains, find_index,
    remaining_users_exec, copy_usizes, paths_of_len,
};
use crate::script::{leaf_script_spec, nums_point_spec, p2tr_script};
use crate::taproot::control_block_of;
use crate::template::{TxTemplate, template_hash};
use crate::tree::{
    PoolTree, PoolParamsV, wf_tree_struct, wf_tree, wf_node_struct, wf_node_crypto,
    layer_path_len, leaf_scripts, leaf_commitment_spec, cont_script_spec,
    leaf_template_spec, other_user, make_leaf_template, find_path_index,
};

verus! {

/// Everything one settlement step needs: the exact transaction shape to
/// broadcast, the witness (leaf script and control block), the commitment
/// the shape must hash to, and where the continuation output sits.
pub struct SpendStep {
    pub template: TxTemplate,
    pub leaf_script: Vec<u8>,
    pub control_block: Vec<u8>,
    pub commitment: Vec<u8>,
    /// The index of the continuation output in the committed shape.
    pub continuation_vout: u32,
    /// Whether this step spends a terminal node, paying out both remaining
    /// participants.
    pub terminal: bool,
}

/// When a resolution request is accepted: the exit path is well formed and
/// short enough to key a node, and the exiting user exists and has not
/// already exited.
pub open spec fn resolve_ok_spec(pr: PoolParamsV, p: Seq<usize>, user: usize) -> bool {
    &&& valid_path(p, pr.users.len())
    &&& p.len() + 2 <= pr.users.len()
    &&& (user as int) < pr.users.len()
    &&& !p.contains(user)
}

impl PoolTree {
    /// Resolves one settlement step against the pre-built tree.
    pub fn resolve_spend(&self, path: &Vec<usize>, user: usize) -> (r: Result<
        SpendStep,
        ResolveError,
    >)
        requires
            wf_tree_struct(self@),
        ensures
            r is Ok <==> resolve_ok_spec(self@.params, path@, user),
            r matches Ok(s) ==> {
                &&& s.terminal == (path@.len() + 2 == self@.params.users.len())
                &&& s.continuation_vout == 2
                &&& s.template@.outputs.len() == 3
                &&& s.leaf_script@ == leaf_script_spec(s.commitment@)
            },
            wf_tree(self@) ==> (r matches Ok(s) ==> {
                let pr = self@.params;
                &&& s.template@ == leaf_template_spec(
                    pr,
                    path@.len() as int,
                    user,
                    cont_script_spec(pr, path@, user),
                )
                &&& s.commitment@ == leaf_commitment_spec(pr, path@, user)
                &&& template_hash(s.template@) == s.commitment@
                &&& exists|j: int|
                    0 <= j < remaining_users(path@, pr.users.len()).len() && remaining_users(
                        path@,
                        pr.users.len(),
                    )[j] == user && s.control_block@ == control_block_of(
                        nums_point_spec(),
                        leaf_scripts(pr, path@),
                        j,
                    )
            }),
    {
        let n = self.params.users.len();
        if user >= n {
            return Err(ResolveError::UnknownUser);
        }
        if vec_contains(path, user) {
            return Err(ResolveError::AlreadyExited);
        }
        let k = path.len();
        proof {
            assert(self@.params.users.len() >= 3);
        }
        if k > n - 2 {
            return Err(ResolveError::UnknownPath);
        }
        let d = n - 2 - k;
        proof {
            assert(layer_path_len(n as nat, d as int) == k as nat);
            lemma_paths_sound(n as nat, k as nat);
        }
        let layer = &self.layers[d];
        proof {
            assert(layer.deep_view() == self@.layers[d as int]);
        }
        let j = match find_path_index(layer, path) {
            Some(j) => j,
            None => {
                proof {
                    if valid_path(path@, n as nat) {
                        lemma_paths_complete(n as nat, k as nat, path@);
                        let ps = paths_of_len(n as nat, k as nat);
                        let i = choose|i: int| 0 <= i < ps.len() && ps[i] == path@;
                        assert(self@.layers[d as int][i].path == path@);
                        assert(layer@[i]@.path == path@);
                        assert(false);
                    }
                }
                return Err(ResolveError::UnknownPath);
            },
        };
        proof {
            assert(layer@[j as int]@ == self@.layers[d as int][j as int]);
            assert(self@.layers[d as int][j as int].path == paths_of_len(n as nat, k as nat)[
                j as int]);
            assert(valid_path(path@, n as nat));
            lemma_remaining_len(path@, n as nat);
            lemma_remaining_membership(path@, n as nat, 0);
            assert(wf_node_struct(self@.params, self@.layers[d as int][j as int]));
        }
        let node = &layer[j];
        let rem = remaining_users_exec(path, n);
        let li = match find_index(&rem, user) {
            Some(li) => li,
            None => {
                proof {
                    assert(rem@.contains(user));
                    assert(false);
                }
                return Err(ResolveError::UnknownUser);
            },
        };
        let cont_script: Vec<u8> = if k + 2 == n {
            let other = if rem[0] == user {
                rem[1]
            } else {
                rem[0]
            };
            proof {
                assert(rem@.contains(other));
                assert(other == other_user(path@, n as nat, user));
                assert(self@.params.users[other as int] =~= self.params.users@[other as int]@);
            }
            copy_bytes(&self.params.users[other])
        } else {
            let mut cp = copy_usizes(path);
            cp.push(user);
            proof {
                lemma_valid_push(path@, n as nat, user);
                lemma_paths_complete(n as nat, (k + 1) as nat, cp@);
                assert(layer_path_len(n as nat, d as int - 1) == (k + 1) as nat);
            }
            let child_layer = &self.layers[d - 1];
            let cj = match find_path_index(child_layer, &cp) {
                Some(cj) => cj,
                None => {
                    proof {
                        let ps = paths_of_len(n as nat, (k + 1) as nat);
                        let i = choose|i: int| 0 <= i < ps.len() && ps[i] == cp@;
                        assert(self@.layers[d as int - 1][i].path == cp@);
                        assert(child_layer@[i]@.path == cp@);
                        assert(false);
                    }
                    return Err(ResolveError::UnknownPath);
                },
            };
            proof {
                assert(child_layer@[cj as int]@ == self@.layers[d as int - 1][cj as int]);
                assert(wf_node_struct(self@.params, self@.layers[d as int - 1][cj as int]));
            }
            let child_key = copy_bytes(&child_layer[cj].output_key);
            p2tr_script(&child_key)
        };
        let t = make_leaf_template(&self.params, k, user, cont_script);
        let step = SpendStep {
            template: t,
            leaf_script: copy_bytes(&node.leaves[li].script),
            control_block: copy_bytes(&node.leaves[li].control_block),
            commitment: copy_bytes(&node.leaves[li].commitment),
            continuation_vout: 2,
            terminal: k + 2 == n,
        };
        proof {
            let pr = self@.params;
            let nv = self@.layers[d as int][j as int];
            assert(nv.leaves[li as int] == node@.leaves[li as int]);
            assert(step.leaf_script@ == leaf_script_spec(step.commitment@));
            if wf_tree(self@) {
                assert(wf_node_crypto(pr, nv));
                assert(step.commitment@ == leaf_commitment_spec(pr, path@, user));
                assert(cont_script@ == cont_script_spec(pr, path@, user));
                assert(step.control_block@ == control_block_of(
                    nums_point_spec(),
                    leaf_scripts(pr, path@),
                    li as int,
                ));
            }
        }
        Ok(step)
    }
}

/// The mutable settlement state: the ordered list of participants who have
/// exited so far, and whether the pool has been settled down to its final
/// payout.  Mutated only one accepted step at a time.
pub struct Settlement {
    pub path: Vec<usize>,
    pub settled: bool,
}

impl Settlement {
    /// Fresh settlement state for a newly funded pool: nobody has exited.
    pub fn new() -> (s: Settlement)
        ensures
            s.path@ == Seq::<usize>::empty(),
            !s.settled,
    {
        Settlement { path: Vec::new(), settled: false }
    }

    /// Resolves the next withdrawal and, on success, advances the state by
    /// the exited user; the terminal step marks the pool settled.  On any
    /// error the state is unchanged and the same step may be retried.
    pub fn advance(&mut self, tree: &PoolTree, user: usize) -> (r: Result<SpendStep, ResolveError>)
        requires
            wf_tree_struct(tree@),
        ensures
            old(self).settled ==> r == Err::<SpendStep, ResolveError>(ResolveError::AlreadySettled)
                && *final(self) == *old(self),
            !old(self).settled ==> (r is Ok <==> resolve_ok_spec(
                tree@.params,
                old(self).path@,
                user,
            )),
            !old(self).settled && r is Err ==> *final(self) == *old(self),
            !old(self).settled && r is Ok ==> final(self).path@ == old(self).path@.push(user)
                && final(self).settled == (old(self).path@.len() + 2 == tree@.params.users.len()),
            r matches Ok(s) ==> s.terminal == (old(self).path@.len() + 2
                == tree@.params.users.len()) && s.continuation_vout == 2 && s.leaf_script@
                == leaf_script_spec(s.commitment@),
            wf_tree(tree@) ==> (r matches Ok(s) ==> s.commitment@ == leaf_commitment_spec(
                tree@.params,
                old(self).path@,
                user,
            ) && template_hash(s.template@) == s.commitment@),
    {
        if self.settled {
            return Err(ResolveError::AlreadySettled);
        }
        match tree.resolve_spend(&self.path, user) {
            Ok(s) => {
                self.path.push(user);
                if s.terminal {
                    self.settled = true;
                }
                Ok(s)
            },
            Err(e) => Err(e),
        }
    }
}

} // verus!
