//! The stated laws of the library, proved once and for all inputs: the build
//! is a function of the ordered leaf sequence, the odd-node policy promotes
//! a trailing node unchanged, a single leaf is its own commitment, every
//! generated authentication path folds back to the root, and the chunk
//! partition covers the whole file.

use vstd::prelude::*;

use crate::chunking::{chunk_partition, sum_of};
use crate::hashing::pair_hash;
use crate::merkle::Block;
use crate::model::{
    auth_path, fold_path, lemma_auth_path_fold, lemma_pair_up_single, lemma_pair_up_two,
    lemma_tree_of_props, pair_up, tree_of, NodeModel,
};

verus! {

/// Determinism: the committed tree, and with it the root commitment, is a
/// function of the ordered leaf identifiers alone. The hypotheses of the two
/// implications are exactly what `Block::build_merkle_tree` ensures of each
/// block it has built, so two builds over the same ordered sequence agree on
/// the tree and on the root.
pub proof fn lemma_build_deterministic(b1: Block, b2: Block)
    ensures
        b1.tree_model() == Some(tree_of(b1.leaf_views())) && b2.tree_model() == Some(
            tree_of(b2.leaf_views()),
        ) && b1.leaf_views() == b2.leaf_views() ==> b1.tree_model() == b2.tree_model(),
        b1.root_view() == Some(tree_of(b1.leaf_views()).hash()) && b2.root_view() == Some(
            tree_of(b2.leaf_views()).hash(),
        ) && b1.leaf_views() == b2.leaf_views() ==> b1.root_view() == b2.root_view(),
{
}

/// Single-leaf tree: one identifier commits to itself, with no pairing.
pub proof fn lemma_single_leaf_root(identifier: Seq<char>)
    ensures
        tree_of(seq![identifier]) == (NodeModel::Leaf { hash: identifier }),
        tree_of(seq![identifier]).hash() == identifier,
{
    let lv = seq![identifier];
    let ns = lv.map_values(|h: Seq<char>| NodeModel::Leaf { hash: h });
    assert(ns.len() == 1);
    assert(ns[0] == (NodeModel::Leaf { hash: identifier }));
}

/// Odd-node policy: three leaves build the branch over the first pair with
/// the third leaf promoted unchanged beside it, never a self-pairing of the
/// third leaf.
pub proof fn lemma_three_leaf_tree(a: Seq<char>, b: Seq<char>, c: Seq<char>)
    ensures
        tree_of(seq![a, b, c]) == (NodeModel::Branch {
            hash: pair_hash(pair_hash(a, b), c),
            left: Box::new(
                NodeModel::Branch {
                    hash: pair_hash(a, b),
                    left: Box::new(NodeModel::Leaf { hash: a }),
                    right: Box::new(NodeModel::Leaf { hash: b }),
                },
            ),
            right: Box::new(NodeModel::Leaf { hash: c }),
        }),
{
    let lv = seq![a, b, c];
    let ns = lv.map_values(|h: Seq<char>| NodeModel::Leaf { hash: h });
    let la = NodeModel::Leaf { hash: a };
    let lb = NodeModel::Leaf { hash: b };
    let lc = NodeModel::Leaf { hash: c };
    let inner = NodeModel::Branch { hash: pair_hash(a, b), left: Box::new(la), right: Box::new(lb) };
    let root = NodeModel::Branch {
        hash: pair_hash(pair_hash(a, b), c),
        left: Box::new(inner),
        right: Box::new(lc),
    };
    assert(ns =~= seq![la, lb, lc]);
    assert(ns.skip(2) =~= seq![lc]);
    lemma_pair_up_single(seq![lc]);
    assert(pair_up(ns) =~= seq![inner, lc]);
    lemma_pair_up_two(seq![inner, lc]);
    assert(pair_up(seq![inner, lc]) =~= seq![root]);
    assert(crate::model::build_root(ns) == crate::model::build_root(pair_up(ns)));
    assert(crate::model::build_root(seq![inner, lc]) == crate::model::build_root(seq![root]));
    assert(crate::model::build_root(seq![root]) == root);
}

/// Round trip: for every non-empty leaf sequence and every valid target
/// index, folding the leaf's authentication path under the committed tree
/// recomputes the root commitment. Together with the contracts of
/// `MerkleProof::generate_merkle_proof` and `MerkleProof::verify_merkle_proof`,
/// every generated proof verifies against its own root.
pub proof fn lemma_proof_round_trip(lv: Seq<Seq<char>>, i: int)
    requires
        1 <= lv.len(),
        0 <= i < lv.len(),
    ensures
        fold_path(lv[i], auth_path(tree_of(lv), i)) == tree_of(lv).hash(),
{
    lemma_tree_of_props(lv);
    lemma_auth_path_fold(tree_of(lv), i);
}

/// The chunk partition covers the whole file exactly once: the chunk sizes
/// add up to the file size.
pub proof fn lemma_chunk_partition_covers(file_size: u64)
    ensures
        sum_of(chunk_partition(file_size)) == file_size,
{
    let tenth = file_size as int / 10;
    let remainder = file_size as int % 10;
    let base = Seq::new(10, |i: int| tenth);
    lemma_sum_repeat(tenth, 10);
    if remainder > 0 {
        lemma_sum_push(base, remainder);
    }
    vstd::arithmetic::div_mod::lemma_fundamental_div_mod(file_size as int, 10);
}

/// The sum of `n` equal chunk sizes.
proof fn lemma_sum_repeat(v: int, n: nat)
    ensures
        sum_of(Seq::new(n, |i: int| v)) == n * v,
    decreases n,
{
    if n == 0 {
    } else {
        let s = Seq::new(n, |i: int| v);
        assert(s.skip(1) =~= Seq::new((n - 1) as nat, |i: int| v));
        lemma_sum_repeat(v, (n - 1) as nat);
        assert(s[0] == v);
        assert(v + (n - 1) * v == n * v) by (nonlinear_arith);
    }
}

/// Appending one chunk adds its size to the sum.
proof fn lemma_sum_push(s: Seq<int>, x: int)
    ensures
        sum_of(s.push(x)) == sum_of(s) + x,
    decreases s.len(),
{
    if s.len() == 0 {
        assert(s.push(x)[0] == x);
        assert(s.push(x).skip(1) =~= Seq::<int>::empty());
        assert(sum_of(Seq::<int>::empty()) == 0);
        assert(s =~= Seq::<int>::empty());
    } else {
        assert(s.push(x)[0] == s[0]);
        assert(s.push(x).skip(1) =~= s.skip(1).push(x));
        lemma_sum_push(s.skip(1), x);
    }
}

} // verus!
