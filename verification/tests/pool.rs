use ctv_pool::errors::{BuildError, ResolveError};
use ctv_pool::resolve::Settlement;
use ctv_pool::taproot::compile_node;
use ctv_pool::template::{commit_template, TxOutput, TxTemplate};
use ctv_pool::tree::{build_pool_tree, PoolConfig, PoolTree};
use bitcoin::hashes::sha256;
use bitcoin::hashes::Hash as HashApi;
use bitcoin::secp256k1::Secp256k1;
use bitcoin::taproot::{LeafVersion, TaprootSpendInfo};
use bitcoin::{ScriptBuf, XOnlyPublicKey};

const SHARE: u64 = 100_000;
const FEE: u64 = 1_000;
const DUST: u64 = 500;

fn test_config() -> PoolConfig {
    PoolConfig { amount_per_user: SHARE, fee_amount: FEE, dust_amount: DUST }
}

fn user_script(i: u8) -> Vec<u8> {
    let mut s = vec![0x00u8, 0x14];
    for b in 0..20u8 {
        s.push(i.wrapping_add(b));
    }
    s
}

fn anchor_script() -> Vec<u8> {
    vec![0x51, 0x02, 0x4e, 0x73]
}

fn users(n: u8) -> Vec<Vec<u8>> {
    (0..n).map(user_script).collect()
}

fn build(n: u8) -> PoolTree {
    build_pool_tree(users(n), anchor_script(), test_config()).expect("pool build should succeed")
}

fn permutations(n: usize) -> Vec<Vec<usize>> {
    if n == 1 {
        return vec![vec![0]];
    }
    let mut out = Vec::new();
    for p in permutations(n - 1) {
        for pos in 0..=p.len() {
            let mut q = p.clone();
            q.insert(pos, n - 1);
            out.push(q);
        }
    }
    out
}

#[test]
fn determinism_same_inputs_same_tree() {
    let t1 = build(4);
    let t2 = build(4);
    assert_eq!(t1.layers.len(), t2.layers.len());
    for (l1, l2) in t1.layers.iter().zip(t2.layers.iter()) {
        assert_eq!(l1.len(), l2.len());
        for (a, b) in l1.iter().zip(l2.iter()) {
            assert_eq!(a.path, b.path);
            assert_eq!(a.output_key, b.output_key);
            assert_eq!(a.leaves.len(), b.leaves.len());
            for (x, y) in a.leaves.iter().zip(b.leaves.iter()) {
                assert_eq!(x.user, y.user);
                assert_eq!(x.commitment, y.commitment);
                assert_eq!(x.script, y.script);
                assert_eq!(x.control_block, y.control_block);
            }
        }
    }
}

#[test]
fn commitment_soundness_every_step() {
    let tree = build(4);
    // Walk one full settlement and re-hash every resolved template.
    let order = [2usize, 0, 3];
    let mut path: Vec<usize> = Vec::new();
    for &u in order.iter() {
        let step = tree.resolve_spend(&path, u).expect("resolve should succeed");
        assert_eq!(commit_template(&step.template), step.commitment);
        path.push(u);
    }
}

#[test]
fn commitment_matches_leaf_storage() {
    let tree = build(3);
    let step = tree.resolve_spend(&Vec::new(), 1).expect("resolve should succeed");
    let root = &tree.layers[tree.layers.len() - 1][0];
    let leaf = root.leaves.iter().find(|l| l.user == 1).expect("leaf for user 1");
    assert_eq!(step.commitment, leaf.commitment);
    assert_eq!(step.leaf_script, leaf.script);
    assert_eq!(step.control_block, leaf.control_block);
}

#[test]
fn tree_coverage_all_permutations_settle() {
    let n = 4usize;
    let tree = build(n as u8);
    for perm in permutations(n) {
        let mut st = Settlement::new();
        for (i, &u) in perm.iter().take(n - 1).enumerate() {
            let step = st.advance(&tree, u).expect("every permutation must resolve");
            assert_eq!(step.terminal, i == n - 2);
        }
        assert!(st.settled);
    }
}

#[test]
fn terminal_reached_in_exactly_n_minus_1_steps() {
    let n = 5usize;
    let tree = build(n as u8);
    let mut st = Settlement::new();
    for i in 0..n - 1 {
        assert!(!st.settled);
        let step = st.advance(&tree, n - 1 - i).expect("advance should succeed");
        assert_eq!(step.terminal, i == n - 2);
    }
    assert!(st.settled);
    assert_eq!(st.path.len(), n - 1);
}

#[test]
fn conservation_at_every_depth() {
    let n = 4usize;
    let tree = build(n as u8);
    let mut path: Vec<usize> = Vec::new();
    for (k, &u) in [1usize, 3, 0].iter().enumerate() {
        let step = tree.resolve_spend(&path, u).expect("resolve should succeed");
        let input_value = (n as u64) * SHARE - (k as u64) * (SHARE + FEE);
        let sum: u64 = step.template.outputs.iter().map(|o| o.value).sum();
        assert_eq!(sum, input_value - FEE);
        path.push(u);
    }
}

#[test]
fn rejects_two_users() {
    let r = build_pool_tree(users(2), anchor_script(), test_config());
    assert_eq!(r.err(), Some(BuildError::TooFewUsers));
}

#[test]
fn rejects_share_not_above_fee_plus_dust() {
    let cfg = PoolConfig { amount_per_user: FEE + DUST, fee_amount: FEE, dust_amount: DUST };
    let r = build_pool_tree(users(3), anchor_script(), cfg);
    assert_eq!(r.err(), Some(BuildError::ShareTooSmall));
}

#[test]
fn rejects_total_overflow() {
    let cfg = PoolConfig { amount_per_user: u64::MAX / 2, fee_amount: FEE, dust_amount: DUST };
    let r = build_pool_tree(users(3), anchor_script(), cfg);
    assert_eq!(r.err(), Some(BuildError::TotalOverflow));
}

#[test]
fn rejects_fees_exceeding_share() {
    // 9 users: 8 accumulated fees of 300_000 exceed the share of 2_000_000.
    let cfg = PoolConfig { amount_per_user: 2_000_000, fee_amount: 300_000, dust_amount: 0 };
    let r = build_pool_tree(users(9), anchor_script(), cfg);
    assert_eq!(r.err(), Some(BuildError::FeesExceedShare));
}

#[test]
fn scenario_three_users() {
    let n = 3usize;
    let tree = build(n as u8);
    // The root is the single node of the last layer and fans out to all
    // three first exits.
    let root = &tree.layers[tree.layers.len() - 1][0];
    assert_eq!(root.path.len(), 0);
    assert_eq!(root.leaves.len(), 3);
    assert_eq!(
        root.leaves.iter().map(|l| l.user).collect::<Vec<_>>(),
        vec![0, 1, 2]
    );

    // Exit A (user 0): pays A share-fee, anchor fee, and continues with
    // 2*share-fee to the node keyed [0].
    let step = tree.resolve_spend(&Vec::new(), 0).expect("resolve should succeed");
    assert!(!step.terminal);
    assert_eq!(step.continuation_vout, 2);
    let outs = &step.template.outputs;
    assert_eq!(outs.len(), 3);
    assert_eq!(outs[0].value, SHARE - FEE);
    assert_eq!(outs[0].script, user_script(0));
    assert_eq!(outs[1].value, FEE);
    assert_eq!(outs[1].script, anchor_script());
    assert_eq!(outs[2].value, 2 * SHARE - FEE);
    let child = tree.layers[0]
        .iter()
        .find(|nd| nd.path == vec![0])
        .expect("node keyed [0] must exist");
    let mut p2tr = vec![0x51u8, 0x20];
    p2tr.extend_from_slice(&child.output_key);
    assert_eq!(outs[2].script, p2tr);

    // Exit B (user 1) from [0]: terminal, pays B and C.
    let step2 = tree.resolve_spend(&vec![0], 1).expect("resolve should succeed");
    assert!(step2.terminal);
    let outs2 = &step2.template.outputs;
    assert_eq!(outs2[0].value, SHARE - FEE);
    assert_eq!(outs2[0].script, user_script(1));
    assert_eq!(outs2[1].value, FEE);
    assert_eq!(outs2[1].script, anchor_script());
    assert_eq!(outs2[2].value, SHARE - 2 * FEE);
    assert_eq!(outs2[2].script, user_script(2));
}

#[test]
fn resolver_rejects_bad_requests() {
    let tree = build(3);
    assert_eq!(
        tree.resolve_spend(&Vec::new(), 7).err(),
        Some(ResolveError::UnknownUser)
    );
    assert_eq!(
        tree.resolve_spend(&vec![1], 1).err(),
        Some(ResolveError::AlreadyExited)
    );
    assert_eq!(
        tree.resolve_spend(&vec![0, 1], 2).err(),
        Some(ResolveError::UnknownPath)
    );
    assert_eq!(
        tree.resolve_spend(&vec![0, 0], 1).err(),
        Some(ResolveError::UnknownPath)
    );
    let mut st = Settlement::new();
    st.advance(&tree, 0).expect("first advance");
    st.advance(&tree, 1).expect("terminal advance");
    assert!(st.settled);
    assert_eq!(st.advance(&tree, 2).err(), Some(ResolveError::AlreadySettled));
}

#[test]
fn compile_node_rejects_empty_leaf_set() {
    let r = compile_node(&Vec::new());
    assert_eq!(r.err(), Some(BuildError::EmptyLeafSet));
}

#[test]
fn leaf_script_embeds_commitment() {
    let tree = build(3);
    let root = &tree.layers[tree.layers.len() - 1][0];
    for leaf in root.leaves.iter() {
        let mut expect = vec![0x20u8];
        expect.extend_from_slice(&leaf.commitment);
        expect.extend_from_slice(&[0xb3, 0x75, 0x51]);
        assert_eq!(leaf.script, expect);
    }
}

#[test]
fn template_hash_matches_independent_sha256() {
    let t = TxTemplate {
        version: 2,
        lock_time: 0,
        sequences: vec![0xffff_fffd],
        outputs: vec![
            TxOutput { value: 99_000, script: user_script(0) },
            TxOutput { value: 1_000, script: anchor_script() },
        ],
        input_index: 0,
    };
    let mut seq_bytes = Vec::new();
    seq_bytes.extend_from_slice(&0xffff_fffdu32.to_le_bytes());
    let mut out_bytes = Vec::new();
    for o in &t.outputs {
        out_bytes.extend_from_slice(&o.value.to_le_bytes());
        assert!(o.script.len() < 0xfd);
        out_bytes.push(o.script.len() as u8);
        out_bytes.extend_from_slice(&o.script);
    }
    let mut pre = Vec::new();
    pre.extend_from_slice(&2u32.to_le_bytes());
    pre.extend_from_slice(&0u32.to_le_bytes());
    pre.extend_from_slice(&1u32.to_le_bytes());
    pre.extend_from_slice(HashApi::as_byte_array(&sha256::Hash::hash(&seq_bytes)));
    pre.extend_from_slice(&2u32.to_le_bytes());
    pre.extend_from_slice(HashApi::as_byte_array(&sha256::Hash::hash(&out_bytes)));
    pre.extend_from_slice(&0u32.to_le_bytes());
    let expect = HashApi::as_byte_array(&sha256::Hash::hash(&pre)).to_vec();
    assert_eq!(commit_template(&t), expect);
}

#[test]
fn taproot_key_matches_independent_compiler() {
    let tree = build(3);
    let root = &tree.layers[tree.layers.len() - 1][0];

    let secp = Secp256k1::verification_only();
    let nums: [u8; 32] = [
        0x50, 0x92, 0x9b, 0x74, 0xc1, 0xa0, 0x49, 0x54, 0xb7, 0x8b, 0x4b, 0x60, 0x35, 0xe9, 0x7a,
        0x5e, 0x07, 0x8a, 0x5a, 0x0f, 0x28, 0xec, 0x96, 0xd5, 0x47, 0xbf, 0xee, 0x9a, 0xce, 0x80,
        0x3a, 0xc0,
    ];
    let ik = XOnlyPublicKey::from_slice(&nums).unwrap();
    let scripts: Vec<ScriptBuf> = root
        .leaves
        .iter()
        .map(|l| ScriptBuf::from_bytes(l.script.clone()))
        .collect();
    let info = TaprootSpendInfo::with_huffman_tree(
        &secp,
        ik,
        scripts.iter().map(|s| (1u32, s.clone())),
    )
    .unwrap();
    assert_eq!(info.output_key().serialize().to_vec(), root.output_key);
    for (i, s) in scripts.iter().enumerate() {
        let cb = info
            .control_block(&(s.clone(), LeafVersion::TapScript))
            .unwrap()
            .serialize();
        assert_eq!(cb, root.leaves[i].control_block);
    }
}

#[test]
fn commit_is_deterministic_and_input_sensitive() {
    let t = TxTemplate {
        version: 2,
        lock_time: 0,
        sequences: vec![0],
        outputs: vec![TxOutput { value: 1, script: vec![0x51] }],
        input_index: 0,
    };
    let t2 = TxTemplate {
        version: 2,
        lock_time: 0,
        sequences: vec![0],
        outputs: vec![TxOutput { value: 2, script: vec![0x51] }],
        input_index: 0,
    };
    assert_eq!(commit_template(&t), commit_template(&t));
    assert_ne!(commit_template(&t), commit_template(&t2));
    assert_eq!(commit_template(&t).len(), 32);
}

#[test]
fn find_output_by_value_picks_first_match() {
    let values: Vec<u64> = vec![5, 7, 9, 7];
    assert_eq!(ctv_pool::funding::find_output_by_value(&values, 7), Some(1));
    assert_eq!(ctv_pool::funding::find_output_by_value(&values, 9), Some(2));
    assert_eq!(ctv_pool::funding::find_output_by_value(&values, 8), None);
    assert_eq!(ctv_pool::funding::find_output_by_value(&Vec::new(), 7), None);
}

#[test]
fn matching_outputs_lists_every_match_in_order() {
    let values: Vec<i64> = vec![3, -1, 3, 2, 3];
    assert_eq!(ctv_pool::funding::matching_outputs(&values, 3), vec![0, 2, 4]);
    assert_eq!(ctv_pool::funding::matching_outputs(&values, -1), vec![1]);
    assert!(ctv_pool::funding::matching_outputs(&values, 4).is_empty());
}
