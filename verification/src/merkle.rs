//! The Merkle tree itself: owned node structure, the block that holds the
//! ordered leaf identifiers, and the bottom-up build procedure.

use vstd::prelude::*;

use crate::errors::MerkleError;
use crate::hashing::{pair_hash, Hasher};
use crate::model::{build_root, pair_up, tree_of, views_of, NodeModel};

verus! {

/// An owned Merkle node: a leaf keeps the identifier it was made from
/// unchanged; a branch keeps its stored hash and its two owned children.
#[derive(Debug, PartialEq)]
pub enum MerkleNode {
    Leaf(String),
    Branch(String, Box<MerkleNode>, Box<MerkleNode>),
}

impl MerkleNode {
    /// The abstract node this value stands for.
    pub open spec fn model(self) -> NodeModel
        decreases self,
    {
        match self {
            MerkleNode::Leaf(hash) => NodeModel::Leaf { hash: hash@ },
            MerkleNode::Branch(hash, left, right) => NodeModel::Branch {
                hash: hash@,
                left: Box::new(left.model()),
                right: Box::new(right.model()),
            },
        }
    }
}

impl Clone for MerkleNode {
    fn clone(&self) -> (res: Self)
        ensures
            res == *self,
        decreases *self,
    {
        match self {
            MerkleNode::Leaf(hash) => MerkleNode::Leaf(hash.clone()),
            MerkleNode::Branch(hash, left, right) => MerkleNode::Branch(
                hash.clone(),
                Box::new((&**left).clone()),
                Box::new((&**right).clone()),
            ),
        }
    }
}

/// The abstract nodes of a sequence of owned nodes.
pub open spec fn models_of(ns: Seq<MerkleNode>) -> Seq<NodeModel> {
    ns.map_values(|n: MerkleNode| n.model())
}

/// The number of leaves under a node.
pub(crate) fn count_leaves(node: &MerkleNode) -> (n: usize)
    requires
        node.model().leaves().len() <= usize::MAX,
    ensures
        n == node.model().leaves().len(),
    decreases *node,
{
    match node {
        MerkleNode::Leaf(_) => 1,
        MerkleNode::Branch(_, left, right) => {
            let nl = count_leaves(left);
            let nr = count_leaves(right);
            nl + nr
        },
    }
}

/// A block: the ordered leaf identifiers, and, once built, the root
/// commitment and the owned tree.
#[derive(Debug)]
pub struct Block {
    hashes: Vec<String>,
    merkle_root: Option<String>,
    merkle_tree: Option<MerkleNode>,
}

impl Block {
    /// The ordered leaf identifiers, as character sequences.
    pub closed spec fn leaf_views(self) -> Seq<Seq<char>> {
        views_of(self.hashes@)
    }

    /// The root commitment, present exactly after a successful build.
    pub closed spec fn root_view(self) -> Option<Seq<char>> {
        match self.merkle_root {
            Some(s) => Some(s@),
            None => None,
        }
    }

    /// The abstract tree, present exactly after a successful build.
    pub closed spec fn tree_model(self) -> Option<NodeModel> {
        match self.merkle_tree {
            Some(t) => Some(t.model()),
            None => None,
        }
    }

    /// Whether a build has succeeded on this block.
    pub open spec fn is_built(self) -> bool {
        self.root_view() is Some
    }

    /// Root and tree appear together, and always as the tree committed to the
    /// stored leaf sequence with its root's stored hash.
    #[verifier::type_invariant]
    pub(crate) open spec fn inv(self) -> bool {
        &&& self.root_view() is Some <==> self.tree_model() is Some
        &&& self.is_built() ==> {
            &&& self.leaf_views().len() >= 1
            &&& self.tree_model() == Some(tree_of(self.leaf_views()))
            &&& self.root_view() == Some(tree_of(self.leaf_views()).hash())
        }
    }

    /// Stores the identifier sequence verbatim; does not build.
    pub fn new(hashes: &Vec<String>) -> (res: Block)
        ensures
            res.leaf_views() == views_of(hashes@),
            !res.is_built(),
            res.tree_model() is None,
    {
        Block { hashes: clone_strings(hashes), merkle_root: None, merkle_tree: None }
    }

    /// Builds the tree bottom-up from the stored identifiers; fails exactly
    /// when the stored sequence is empty. A rebuild simply overwrites the
    /// prior root and tree.
    pub fn build_merkle_tree(&mut self) -> (res: Result<(), MerkleError>)
        ensures
            final(self).leaf_views() == old(self).leaf_views(),
            old(self).leaf_views().len() == 0 ==> {
                &&& res == Err::<(), MerkleError>(MerkleError::EmptyInput)
                &&& !final(self).is_built()
                &&& final(self).root_view() == old(self).root_view()
                &&& final(self).tree_model() == old(self).tree_model()
            },
            old(self).leaf_views().len() >= 1 ==> {
                &&& res == Ok::<(), MerkleError>(())
                &&& final(self).is_built()
                &&& final(self).tree_model() == Some(tree_of(old(self).leaf_views()))
                &&& final(self).root_view() == Some(tree_of(old(self).leaf_views()).hash())
            },
    {
        proof {
            use_type_invariant(&*self);
        }
        if self.hashes.len() == 0 {
            return Err(MerkleError::EmptyInput);
        }
        let mut nodes: Vec<MerkleNode> = Vec::new();
        let mut i: usize = 0;
        while i < self.hashes.len()
            invariant
                *self == *old(self),
                i <= self.hashes@.len(),
                nodes@.len() == i,
                forall|k: int|
                    0 <= k < i ==> (#[trigger] nodes@[k]).model() == (NodeModel::Leaf {
                        hash: self.hashes@[k]@,
                    }),
            decreases self.hashes@.len() - i,
        {
            nodes.push(MerkleNode::Leaf(self.hashes[i].clone()));
            i = i + 1;
        }
        proof {
            assert(models_of(nodes@) =~= views_of(self.hashes@).map_values(
                |h: Seq<char>| NodeModel::Leaf { hash: h },
            ));
        }
        self.construct_tree(nodes);
        Ok(())
    }

    /// Repeatedly reduces the current level until one node remains, then
    /// records that node as root and tree.
    fn construct_tree(&mut self, nodes: Vec<MerkleNode>)
        requires
            nodes@.len() >= 1,
            old(self).hashes@.len() >= 1,
            build_root(models_of(nodes@)) == tree_of(views_of(old(self).hashes@)),
        ensures
            final(self).hashes@ == old(self).hashes@,
            final(self).tree_model() == Some(tree_of(views_of(old(self).hashes@))),
            final(self).root_view() == Some(tree_of(views_of(old(self).hashes@)).hash()),
    {
        let ghost root_model: NodeModel = build_root(models_of(nodes@));
        let mut nodes: Vec<MerkleNode> = nodes;
        while nodes.len() > 1
            invariant
                *self == *old(self),
                nodes@.len() >= 1,
                build_root(models_of(nodes@)) == root_model,
            decreases nodes@.len(),
        {
            let ghost m: Seq<NodeModel> = models_of(nodes@);
            let mut level: Vec<MerkleNode> = Vec::new();
            let mut j: usize = 0;
            proof {
                assert(models_of(level@) =~= Seq::<NodeModel>::empty());
                assert(m.skip(0) =~= m);
                assert(Seq::<NodeModel>::empty() + pair_up(m) =~= pair_up(m));
            }
            while j < nodes.len()
                invariant
                    j <= nodes@.len(),
                    m == models_of(nodes@),
                    models_of(level@) + pair_up(m.skip(j as int)) == pair_up(m),
                decreases nodes@.len() - j,
            {
                let ghost lv0: Seq<MerkleNode> = level@;
                let step = self.create_new_level(&nodes, j, &mut level);
                proof {
                    let jj = j as int;
                    let end = jj + step as int;
                    let sub = m.subrange(jj, end);
                    if step == 2 {
                        crate::model::lemma_pair_up_split(m, jj);
                    } else {
                        crate::model::lemma_pair_up_split_single(m, jj);
                    }
                    assert(models_of(level@) == models_of(lv0) + pair_up(sub));
                    assert(pair_up(m.skip(jj)) == pair_up(sub) + pair_up(m.skip(end)));
                    assert(models_of(level@) + pair_up(m.skip(end)) =~= models_of(lv0) + pair_up(
                        m.skip(jj),
                    ));
                }
                j = j + step;
            }
            proof {
                assert(m.skip(nodes@.len() as int) =~= Seq::<NodeModel>::empty());
                crate::model::lemma_pair_up_empty();
                assert(models_of(level@) + pair_up(Seq::<NodeModel>::empty()) =~= models_of(
                    level@,
                ));
                assert(models_of(level@) == pair_up(m));
                crate::model::lemma_pair_up_len(m);
            }
            nodes = level;
        }
        self.set_merkle_root(&nodes);
    }

    /// Handles one chunk of the current level: a full pair becomes a branch
    /// over the two nodes; a trailing single node is promoted unchanged.
    /// Returns how many nodes of the level were consumed.
    fn create_new_level(&self, nodes: &Vec<MerkleNode>, start: usize, level: &mut Vec<MerkleNode>)
        -> (step: usize)
        requires
            start < nodes@.len(),
        ensures
            step == if start + 1 < nodes@.len() { 2usize } else { 1usize },
            start + step <= nodes@.len(),
            models_of(final(level)@) == models_of(old(level)@) + pair_up(
                models_of(nodes@).subrange(start as int, start as int + step as int),
            ),
    {
        let ghost m: Seq<NodeModel> = models_of(nodes@);
        let n = nodes.len();
        if start + 1 < n {
            let left = &nodes[start];
            let right = &nodes[start + 1];
            let hashed_string = self.get_hash_from_pair(left, right);
            level.push(MerkleNode::Branch(
                hashed_string,
                Box::new(left.clone()),
                Box::new(right.clone()),
            ));
            proof {
                let sub = m.subrange(start as int, start as int + 2);
                crate::model::lemma_pair_up_two(sub);
                assert(sub[0] == m[start as int]);
                assert(sub[1] == m[start as int + 1]);
                assert(models_of(level@) =~= models_of(old(level)@) + pair_up(sub));
            }
            2
        } else {
            level.push(nodes[start].clone());
            proof {
                let sub = m.subrange(start as int, start as int + 1);
                crate::model::lemma_pair_up_single(sub);
                assert(sub =~= seq![m[start as int]]);
                assert(models_of(level@) =~= models_of(old(level)@) + pair_up(sub));
            }
            1
        }
    }

    /// The pairing hash of two nodes' stored hashes.
    fn get_hash_from_pair(&self, left: &MerkleNode, right: &MerkleNode) -> (r: String)
        ensures
            r@ == pair_hash(left.model().hash(), right.model().hash()),
    {
        match (left, right) {
            (MerkleNode::Leaf(hash1), MerkleNode::Leaf(hash2)) => Hasher::pair(hash1, hash2),
            (MerkleNode::Branch(hash1, _, _), MerkleNode::Branch(hash2, _, _)) => Hasher::pair(
                hash1,
                hash2,
            ),
            (MerkleNode::Leaf(hash1), MerkleNode::Branch(hash2, _, _)) => Hasher::pair(
                hash1,
                hash2,
            ),
            (MerkleNode::Branch(hash1, _, _), MerkleNode::Leaf(hash2)) => Hasher::pair(
                hash1,
                hash2,
            ),
        }
    }

    /// Records the surviving node as the owned tree and its stored hash as
    /// the root commitment.
    fn set_merkle_root(&mut self, merkle_node: &Vec<MerkleNode>)
        requires
            merkle_node@.len() == 1,
            old(self).hashes@.len() >= 1,
            merkle_node@[0].model() == tree_of(views_of(old(self).hashes@)),
        ensures
            final(self).hashes@ == old(self).hashes@,
            final(self).tree_model() == Some(merkle_node@[0].model()),
            final(self).root_view() == Some(merkle_node@[0].model().hash()),
    {
        let root_node = &merkle_node[0];
        let root_hash: String = match root_node {
            MerkleNode::Leaf(hash) => hash.clone(),
            MerkleNode::Branch(hash, _, _) => hash.clone(),
        };
        let new_hashes = clone_strings(&self.hashes);
        *self = Block {
            hashes: new_hashes,
            merkle_root: Some(root_hash),
            merkle_tree: Some(root_node.clone()),
        };
    }

    /// The root commitment; empty until a build succeeds.
    pub fn get_merkle_root(&self) -> (r: &Option<String>)
        ensures
            r is Some <==> self.is_built(),
            r is Some ==> self.root_view() == Some(r->Some_0@),
    {
        proof {
            use_type_invariant(&*self);
        }
        &self.merkle_root
    }

    /// The owned tree; empty until a build succeeds.
    pub fn get_merkle_tree(&self) -> (r: &Option<MerkleNode>)
        ensures
            r is Some <==> self.is_built(),
            r is Some ==> self.tree_model() == Some(r->Some_0.model()),
    {
        proof {
            use_type_invariant(&*self);
        }
        &self.merkle_tree
    }

    /// The stored leaf identifiers, in order.
    pub fn get_hashes(&self) -> (r: &Vec<String>)
        ensures
            views_of(r@) == self.leaf_views(),
    {
        &self.hashes
    }
}

impl Clone for Block {
    fn clone(&self) -> (res: Self)
        ensures
            res.leaf_views() == self.leaf_views(),
            res.root_view() == self.root_view(),
            res.tree_model() == self.tree_model(),
    {
        proof {
            use_type_invariant(&*self);
        }
        Block {
            hashes: clone_strings(&self.hashes),
            merkle_root: match &self.merkle_root {
                Some(s) => Some(s.clone()),
                None => None,
            },
            merkle_tree: match &self.merkle_tree {
                Some(t) => Some(t.clone()),
                None => None,
            },
        }
    }
}

/// An element-for-element copy of a string vector.
fn clone_strings(v: &Vec<String>) -> (res: Vec<String>)
    ensures
        res@ == v@,
{
    let mut res: Vec<String> = Vec::new();
    let mut i: usize = 0;
    while i < v.len()
        invariant
            i <= v@.len(),
            res@.len() == i,
            forall|k: int| 0 <= k < i ==> res@[k] == v@[k],
        decreases v@.len() - i,
    {
        res.push(v[i].clone());
        i = i + 1;
    }
    proof {
        assert(res@ =~= v@);
    }
    res
}

} // verus!
