//! The mathematical model of the Merkle tree: an abstract node over character
//! sequences, the bottom-up build with the odd-node carry-over policy, the
//! authentication path of a leaf, and the verification fold.

use vstd::prelude::*;

use crate::hashing::pair_hash;

verus! {

/// Abstract shape of a Merkle node: a leaf carries the identifier it was made
/// from, a branch carries its stored hash and its two owned children.
pub enum NodeModel {
    Leaf { hash: Seq<char> },
    Branch { hash: Seq<char>, left: Box<NodeModel>, right: Box<NodeModel> },
}

impl NodeModel {
    /// The hash stored at this node.
    pub open spec fn hash(self) -> Seq<char> {
        match self {
            NodeModel::Leaf { hash } => hash,
            NodeModel::Branch { hash, .. } => hash,
        }
    }

    /// The leaf identifiers under this node, left to right.
    pub open spec fn leaves(self) -> Seq<Seq<char>>
        decreases self,
    {
        match self {
            NodeModel::Leaf { hash } => seq![hash],
            NodeModel::Branch { left, right, .. } => left.leaves() + right.leaves(),
        }
    }

    /// The structure is self-authenticating: every branch stores exactly the
    /// pairing hash of its children's stored hashes.
    pub open spec fn authenticated(self) -> bool
        decreases self,
    {
        match self {
            NodeModel::Leaf { .. } => true,
            NodeModel::Branch { hash, left, right } => {
                &&& hash == pair_hash(left.hash(), right.hash())
                &&& left.authenticated()
                &&& right.authenticated()
            },
        }
    }
}

/// The views of a sequence of strings.
pub open spec fn views_of(ss: Seq<String>) -> Seq<Seq<char>> {
    ss.map_values(|s: String| s@)
}

/// The views of a sequence of (sibling hash, is-right-sibling) pairs.
pub open spec fn pair_views(ps: Seq<(String, bool)>) -> Seq<(Seq<char>, bool)> {
    ps.map_values(|p: (String, bool)| (p.0@, p.1))
}

/// All nodes of one level hold the self-authenticating property.
pub open spec fn level_wf(ns: Seq<NodeModel>) -> bool {
    forall|k: int| 0 <= k < ns.len() ==> (#[trigger] ns[k]).authenticated()
}

/// The leaves under one level, in order.
pub open spec fn level_leaves(ns: Seq<NodeModel>) -> Seq<Seq<char>>
    decreases ns.len(),
{
    if ns.len() == 0 {
        Seq::empty()
    } else {
        ns[0].leaves() + level_leaves(ns.skip(1))
    }
}

/// One build step: partition a level into consecutive pairs, left to right,
/// emit a branch for every full pair, and carry a trailing unpaired node to
/// the next level unchanged.
pub open spec fn pair_up(ns: Seq<NodeModel>) -> Seq<NodeModel>
    decreases ns.len(),
{
    if ns.len() >= 2 {
        seq![NodeModel::Branch {
            hash: pair_hash(ns[0].hash(), ns[1].hash()),
            left: Box::new(ns[0]),
            right: Box::new(ns[1]),
        }] + pair_up(ns.skip(2))
    } else {
        ns
    }
}

/// Each build step roughly halves a level.
pub proof fn lemma_pair_up_len(ns: Seq<NodeModel>)
    ensures
        pair_up(ns).len() == (ns.len() + 1) / 2,
    decreases ns.len(),
{
    if ns.len() >= 2 {
        lemma_pair_up_len(ns.skip(2));
    }
}

pub proof fn lemma_pair_up_empty()
    ensures
        pair_up(Seq::<NodeModel>::empty()) == Seq::<NodeModel>::empty(),
{
}

pub proof fn lemma_pair_up_single(s: Seq<NodeModel>)
    requires
        s.len() == 1,
    ensures
        pair_up(s) == s,
{
}

/// A level of exactly two nodes reduces to the one branch over them.
pub proof fn lemma_pair_up_two(s: Seq<NodeModel>)
    requires
        s.len() == 2,
    ensures
        pair_up(s) == seq![
            NodeModel::Branch {
                hash: pair_hash(s[0].hash(), s[1].hash()),
                left: Box::new(s[0]),
                right: Box::new(s[1]),
            },
        ],
{
    assert(s.skip(2) =~= Seq::<NodeModel>::empty());
    assert(pair_up(s.skip(2)) == s.skip(2));
    assert(pair_up(s) =~= seq![
        NodeModel::Branch {
            hash: pair_hash(s[0].hash(), s[1].hash()),
            left: Box::new(s[0]),
            right: Box::new(s[1]),
        },
    ]);
}

/// Reducing the tail from position `j` handles the pair at `j` first.
pub proof fn lemma_pair_up_split(m: Seq<NodeModel>, j: int)
    requires
        0 <= j,
        j + 2 <= m.len(),
    ensures
        pair_up(m.skip(j)) == pair_up(m.subrange(j, j + 2)) + pair_up(m.skip(j + 2)),
{
    let s = m.skip(j);
    assert(s[0] == m[j]);
    assert(s[1] == m[j + 1]);
    assert(s.skip(2) =~= m.skip(j + 2));
    lemma_pair_up_two(m.subrange(j, j + 2));
    assert(m.subrange(j, j + 2)[0] == m[j]);
    assert(m.subrange(j, j + 2)[1] == m[j + 1]);
    assert(pair_up(m.skip(j)) =~= pair_up(m.subrange(j, j + 2)) + pair_up(m.skip(j + 2)));
}

/// A trailing single node is carried over unchanged.
pub proof fn lemma_pair_up_split_single(m: Seq<NodeModel>, j: int)
    requires
        0 <= j,
        j + 1 == m.len(),
    ensures
        pair_up(m.skip(j)) == pair_up(m.subrange(j, j + 1)) + pair_up(m.skip(j + 1)),
{
    assert(m.skip(j) =~= m.subrange(j, j + 1));
    assert(m.skip(j + 1) =~= Seq::<NodeModel>::empty());
    lemma_pair_up_empty();
    lemma_pair_up_single(m.subrange(j, j + 1));
    assert(pair_up(m.skip(j)) =~= pair_up(m.subrange(j, j + 1)) + pair_up(m.skip(j + 1)));
}

/// Repeat the build step until one node remains; that node is the root.
pub open spec fn build_root(ns: Seq<NodeModel>) -> NodeModel
    recommends
        ns.len() >= 1,
    decreases ns.len(),
    via build_root_decreases
{
    if ns.len() <= 1 {
        ns[0]
    } else {
        build_root(pair_up(ns))
    }
}

#[via_fn]
proof fn build_root_decreases(ns: Seq<NodeModel>) {
    if ns.len() > 1 {
        lemma_pair_up_len(ns);
    }
}

/// The tree committed to an ordered sequence of leaf identifiers.
pub open spec fn tree_of(lv: Seq<Seq<char>>) -> NodeModel {
    build_root(lv.map_values(|h: Seq<char>| NodeModel::Leaf { hash: h }))
}

/// The authentication path of the leaf at position `i` under `n`: sibling
/// hashes with their side, from just above the leaf up to just below `n`.
pub open spec fn auth_path(n: NodeModel, i: int) -> Seq<(Seq<char>, bool)>
    decreases n,
{
    match n {
        NodeModel::Leaf { .. } => Seq::empty(),
        NodeModel::Branch { left, right, .. } => {
            if i < left.leaves().len() {
                auth_path(*left, i).push((right.hash(), true))
            } else {
                auth_path(*right, i - left.leaves().len()).push((left.hash(), false))
            }
        },
    }
}

/// Splitting off the head node splits the level's leaves.
proof fn lemma_level_leaves_cons(b: NodeModel, rest: Seq<NodeModel>)
    ensures
        level_leaves(seq![b] + rest) == b.leaves() + level_leaves(rest),
{
    let s = seq![b] + rest;
    assert(s[0] == b);
    assert(s.skip(1) =~= rest);
}

/// One build step keeps the leaves of a level, in order, and keeps every
/// node self-authenticating.
pub proof fn lemma_pair_up_leaves(ns: Seq<NodeModel>)
    ensures
        level_leaves(pair_up(ns)) == level_leaves(ns),
        level_wf(ns) ==> level_wf(pair_up(ns)),
    decreases ns.len(),
{
    if ns.len() >= 2 {
        let rest = ns.skip(2);
        lemma_pair_up_leaves(rest);
        let b = NodeModel::Branch {
            hash: pair_hash(ns[0].hash(), ns[1].hash()),
            left: Box::new(ns[0]),
            right: Box::new(ns[1]),
        };
        lemma_level_leaves_cons(b, pair_up(rest));
        assert(ns.skip(1)[0] == ns[1]);
        assert(ns.skip(1).skip(1) =~= rest);
        assert(pair_up(ns) == seq![b] + pair_up(rest));
        assert(b.leaves() == ns[0].leaves() + ns[1].leaves());
        assert(level_leaves(ns) == ns[0].leaves() + level_leaves(ns.skip(1)));
        assert(level_leaves(ns.skip(1)) == ns[1].leaves() + level_leaves(rest));
        assert(level_leaves(pair_up(ns)) =~= level_leaves(ns));
        if level_wf(ns) {
            assert forall|k: int| 0 <= k < pair_up(ns).len() implies (#[trigger] pair_up(
                ns,
            )[k]).authenticated() by {
                lemma_pair_up_len(ns);
                if k == 0 {
                    assert(pair_up(ns)[0] == b);
                    assert(ns[0].authenticated());
                    assert(ns[1].authenticated());
                } else {
                    assert(pair_up(ns)[k] == pair_up(rest)[k - 1]);
                    assert(level_wf(rest)) by {
                        assert forall|t: int| 0 <= t < rest.len() implies (#[trigger] rest[t]).authenticated() by {
                            assert(rest[t] == ns[t + 2]);
                        }
                    }
                }
            }
        }
    }
}

/// The surviving root of a well-formed level is self-authenticating and
/// holds exactly the level's leaves.
pub proof fn lemma_build_root_props(ns: Seq<NodeModel>)
    requires
        ns.len() >= 1,
        level_wf(ns),
    ensures
        build_root(ns).authenticated(),
        build_root(ns).leaves() == level_leaves(ns),
    decreases ns.len(),
{
    if ns.len() == 1 {
        assert(ns.skip(1) =~= Seq::<NodeModel>::empty());
        assert(level_leaves(ns.skip(1)) == Seq::<Seq<char>>::empty());
        assert(ns[0].leaves() + Seq::<Seq<char>>::empty() =~= ns[0].leaves());
        assert(ns[0].authenticated());
    } else {
        lemma_pair_up_len(ns);
        lemma_pair_up_leaves(ns);
        lemma_build_root_props(pair_up(ns));
    }
}

/// A level of fresh leaf nodes is well-formed and holds the identifiers.
pub proof fn lemma_leaf_level(lv: Seq<Seq<char>>)
    ensures
        level_leaves(lv.map_values(|h: Seq<char>| NodeModel::Leaf { hash: h })) == lv,
        level_wf(lv.map_values(|h: Seq<char>| NodeModel::Leaf { hash: h })),
    decreases lv.len(),
{
    let ns = lv.map_values(|h: Seq<char>| NodeModel::Leaf { hash: h });
    if lv.len() == 0 {
        assert(level_leaves(ns) =~= lv);
    } else {
        lemma_leaf_level(lv.skip(1));
        assert(ns.skip(1) =~= lv.skip(1).map_values(|h: Seq<char>| NodeModel::Leaf { hash: h }));
        assert(ns[0].leaves() =~= seq![lv[0]]);
        assert(level_leaves(ns) =~= lv);
    }
}

/// The tree committed to a non-empty identifier sequence is
/// self-authenticating and holds exactly those identifiers as leaves.
pub proof fn lemma_tree_of_props(lv: Seq<Seq<char>>)
    requires
        lv.len() >= 1,
    ensures
        tree_of(lv).authenticated(),
        tree_of(lv).leaves() == lv,
{
    lemma_leaf_level(lv);
    lemma_build_root_props(lv.map_values(|h: Seq<char>| NodeModel::Leaf { hash: h }));
}

/// The verification fold: combine the leaf hash with each sibling in stored
/// order, on the side the flag names.
pub open spec fn fold_path(leaf: Seq<char>, path: Seq<(Seq<char>, bool)>) -> Seq<char>
    decreases path.len(),
{
    if path.len() == 0 {
        leaf
    } else {
        let combined = if path[0].1 {
            pair_hash(leaf, path[0].0)
        } else {
            pair_hash(path[0].0, leaf)
        };
        fold_path(combined, path.skip(1))
    }
}

/// Folding one more sibling combines it with the fold of the prefix.
pub proof fn lemma_fold_path_push(leaf: Seq<char>, path: Seq<(Seq<char>, bool)>, x: (Seq<char>, bool))
    ensures
        fold_path(leaf, path.push(x)) == (if x.1 {
            pair_hash(fold_path(leaf, path), x.0)
        } else {
            pair_hash(x.0, fold_path(leaf, path))
        }),
    decreases path.len(),
{
    if path.len() == 0 {
        assert(path.push(x)[0] == x);
        assert(path.push(x).skip(1) =~= Seq::<(Seq<char>, bool)>::empty());
        assert(fold_path(leaf, path) == leaf);
        let combined_x = if x.1 {
            pair_hash(leaf, x.0)
        } else {
            pair_hash(x.0, leaf)
        };
        assert(fold_path(combined_x, Seq::<(Seq<char>, bool)>::empty()) == combined_x);
    } else {
        let combined = if path[0].1 {
            pair_hash(leaf, path[0].0)
        } else {
            pair_hash(path[0].0, leaf)
        };
        assert(path.push(x)[0] == path[0]);
        assert(path.push(x).skip(1) =~= path.skip(1).push(x));
        lemma_fold_path_push(combined, path.skip(1), x);
    }
}

/// Folding a leaf's authentication path under a self-authenticating node
/// recomputes that node's stored hash.
pub proof fn lemma_auth_path_fold(n: NodeModel, i: int)
    requires
        n.authenticated(),
        0 <= i < n.leaves().len(),
    ensures
        fold_path(n.leaves()[i], auth_path(n, i)) == n.hash(),
    decreases n,
{
    match n {
        NodeModel::Leaf { .. } => {
        },
        NodeModel::Branch { left, right, .. } => {
            let cl = left.leaves().len() as int;
            if i < cl {
                lemma_auth_path_fold(*left, i);
                lemma_fold_path_push(left.leaves()[i], auth_path(*left, i), (right.hash(), true));
                assert(n.leaves()[i] == left.leaves()[i]);
            } else {
                lemma_auth_path_fold(*right, i - cl);
                lemma_fold_path_push(
                    right.leaves()[i - cl],
                    auth_path(*right, i - cl),
                    (left.hash(), false),
                );
                assert(n.leaves()[i] == right.leaves()[i - cl]);
            }
        },
    }
}

} // verus!
