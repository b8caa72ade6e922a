//! Inclusion proofs: generation by tree traversal, and verification by
//! folding the authentication path.

use vstd::prelude::*;

use crate::errors::MerkleError;
use crate::hashing::Hasher;
use crate::merkle::{count_leaves, Block, MerkleNode};
use crate::model::{auth_path, fold_path, lemma_tree_of_props, pair_views, tree_of};

verus! {

/// An inclusion proof: the target leaf's own hash, the authentication path
/// (sibling hash and whether that sibling stands to the right) from the leaf
/// up to just below the root, the claimed root commitment, and the target
/// index. A value object: verification needs nothing but this record.
pub struct MerkleProof {
    pub chunk_hash: String,
    pub proof_hashes: Vec<(String, bool)>,
    pub block: Block,
    pub target_index: usize,
    pub root_hash: String,
}

impl MerkleProof {
    /// Stores the block and the target index; the proof fields stay empty
    /// until generation.
    pub fn new(block: Block, target_index: usize) -> (res: Self)
        ensures
            res.block == block,
            res.target_index == target_index,
            res.chunk_hash@ == Seq::<char>::empty(),
            res.proof_hashes@ == Seq::<(String, bool)>::empty(),
            res.root_hash@ == Seq::<char>::empty(),
    {
        MerkleProof {
            chunk_hash: String::new(),
            proof_hashes: Vec::new(),
            block,
            target_index,
            root_hash: String::new(),
        }
    }

    /// Walks the built tree and collects the authentication path for the
    /// stored target index. Fails with `NoRoot` before a successful build and
    /// with `IndexOutOfRange` when the index names no leaf.
    pub fn generate_merkle_proof(&self) -> (res: Result<MerkleProof, MerkleError>)
        ensures
            !self.block.is_built() ==> res == Err::<MerkleProof, MerkleError>(
                MerkleError::NoRoot,
            ),
            self.block.is_built() && self.target_index
                >= self.block.leaf_views().len() ==> res == Err::<MerkleProof, MerkleError>(
                MerkleError::IndexOutOfRange,
            ),
            self.block.is_built() && self.target_index
                < self.block.leaf_views().len() ==> res is Ok && {
                let p = res->Ok_0;
                let lv = self.block.leaf_views();
                &&& p.chunk_hash@ == lv[self.target_index as int]
                &&& p.root_hash@ == tree_of(lv).hash()
                &&& p.target_index == self.target_index
                &&& pair_views(p.proof_hashes@) == auth_path(tree_of(lv), self.target_index as int)
                &&& p.block.leaf_views() == lv
                &&& p.block.root_view() == self.block.root_view()
                &&& p.block.tree_model() == self.block.tree_model()
            },
    {
        proof {
            use_type_invariant(&self.block);
        }
        let root_hash: String = match self.block.get_merkle_root() {
            Some(r) => r.clone(),
            None => {
                return Err(MerkleError::NoRoot);
            },
        };
        let hashes = self.block.get_hashes();
        if self.target_index >= hashes.len() {
            return Err(MerkleError::IndexOutOfRange);
        }
        let chunk_hash: String = hashes[self.target_index].clone();
        let merkle_tree: &MerkleNode = match self.block.get_merkle_tree() {
            Some(t) => t,
            None => {
                return Err(MerkleError::NoRoot);
            },
        };
        let ghost lv = self.block.leaf_views();
        proof {
            lemma_tree_of_props(lv);
        }
        let mut proof_hashes: Vec<(String, bool)> = Vec::new();
        let found = self.collect_proof_hashes(merkle_tree, self.target_index, &mut proof_hashes);
        proof {
            assert(pair_views(Seq::<(String, bool)>::empty()) =~= Seq::<(Seq<char>, bool)>::empty());
            assert(Seq::<(Seq<char>, bool)>::empty() + auth_path(
                tree_of(lv),
                self.target_index as int,
            ) =~= auth_path(tree_of(lv), self.target_index as int));
        }
        Ok(
            MerkleProof {
                chunk_hash,
                proof_hashes,
                root_hash,
                target_index: self.target_index,
                block: self.block.clone(),
            },
        )
    }

    /// Recursive descent: report whether the leaf at the (subtree-relative)
    /// target position lies under `node`, and if so extend `path` with the
    /// sibling hashes from that leaf upward.
    fn collect_proof_hashes(
        &self,
        node: &MerkleNode,
        target_index: usize,
        path: &mut Vec<(String, bool)>,
    ) -> (found: bool)
        requires
            node.model().leaves().len() <= usize::MAX,
        ensures
            found == (target_index < node.model().leaves().len()),
            found ==> pair_views(final(path)@) == pair_views(old(path)@) + auth_path(
                node.model(),
                target_index as int,
            ),
            !found ==> final(path)@ == old(path)@,
        decreases *node, 1int,
    {
        match node {
            MerkleNode::Leaf(_) => {
                proof {
                    if target_index == 0 {
                        assert(pair_views(path@) =~= pair_views(old(path)@) + auth_path(
                            node.model(),
                            0,
                        ));
                    }
                }
                target_index == 0
            },
            MerkleNode::Branch(_, _, _) => self.traverse_and_collect_proofs(
                node,
                target_index,
                path,
            ),
        }
    }

    /// Descends into the left subtree first; when the target lies there, the
    /// right child's hash joins the path as a right sibling, otherwise the
    /// search moves into the right subtree and the left child's hash joins
    /// the path as a left sibling.
    fn traverse_and_collect_proofs(
        &self,
        node: &MerkleNode,
        target_index: usize,
        path: &mut Vec<(String, bool)>,
    ) -> (found: bool)
        requires
            node is Branch,
            node.model().leaves().len() <= usize::MAX,
        ensures
            found == (target_index < node.model().leaves().len()),
            found ==> pair_views(final(path)@) == pair_views(old(path)@) + auth_path(
                node.model(),
                target_index as int,
            ),
            !found ==> final(path)@ == old(path)@,
        decreases *node, 0int,
    {
        match node {
            MerkleNode::Leaf(_) => {
                proof {
                    assert(false);
                }
                false
            },
            MerkleNode::Branch(_, left, right) => {
                let found_in_left = self.collect_proof_hashes(left, target_index, path);
                let ghost mid = path@;
                if found_in_left {
                    let sibling: String = match &**right {
                        MerkleNode::Leaf(hash) => hash.clone(),
                        MerkleNode::Branch(hash, _, _) => hash.clone(),
                    };
                    path.push((sibling, true));
                    proof {
                        let ti = target_index as int;
                        assert(sibling@ == right.model().hash());
                        assert(auth_path(node.model(), ti) == auth_path(left.model(), ti).push(
                            (right.model().hash(), true),
                        ));
                        assert(pair_views(mid) == pair_views(old(path)@) + auth_path(
                            left.model(),
                            ti,
                        ));
                        assert(path@ == mid.push((sibling, true)));
                        assert(pair_views(mid.push((sibling, true))) =~= pair_views(mid).push(
                            (sibling@, true),
                        ));
                        assert((pair_views(old(path)@) + auth_path(left.model(), ti)).push(
                            (right.model().hash(), true),
                        ) =~= pair_views(old(path)@) + auth_path(left.model(), ti).push(
                            (right.model().hash(), true),
                        ));
                        assert(pair_views(path@) =~= pair_views(old(path)@) + auth_path(
                            node.model(),
                            ti,
                        ));
                    }
                    true
                } else {
                    let left_count = count_leaves(left);
                    let found_in_right = self.collect_proof_hashes(
                        right,
                        target_index - left_count,
                        path,
                    );
                    let ghost mid2 = path@;
                    if found_in_right {
                        let sibling: String = match &**left {
                            MerkleNode::Leaf(hash) => hash.clone(),
                            MerkleNode::Branch(hash, _, _) => hash.clone(),
                        };
                        path.push((sibling, false));
                        proof {
                            let ti = target_index as int;
                            let cl = left.model().leaves().len() as int;
                            assert(sibling@ == left.model().hash());
                            assert(auth_path(node.model(), ti) == auth_path(
                                right.model(),
                                ti - cl,
                            ).push((left.model().hash(), false)));
                            assert(pair_views(mid2) == pair_views(old(path)@) + auth_path(
                                right.model(),
                                ti - cl,
                            ));
                            assert(path@ == mid2.push((sibling, false)));
                            assert(pair_views(mid2.push((sibling, false))) =~= pair_views(
                                mid2,
                            ).push((sibling@, false)));
                            assert((pair_views(old(path)@) + auth_path(right.model(), ti - cl)).push(
                                (left.model().hash(), false),
                            ) =~= pair_views(old(path)@) + auth_path(right.model(), ti - cl).push(
                                (left.model().hash(), false),
                            ));
                            assert(pair_views(path@) =~= pair_views(old(path)@) + auth_path(
                                node.model(),
                                ti,
                            ));
                        }
                    }
                    found_in_right
                }
            },
        }
    }

    /// Recomputes the root from the leaf hash by folding the stored path in
    /// order, and compares the outcome with the claimed root commitment.
    pub fn verify_merkle_proof(&self, merkle_proof: &MerkleProof) -> (res: Result<
        bool,
        MerkleError,
    >)
        ensures
            res is Ok,
            res->Ok_0 == (fold_path(
                merkle_proof.chunk_hash@,
                pair_views(merkle_proof.proof_hashes@),
            ) == merkle_proof.root_hash@),
    {
        let mut current_hash: String = merkle_proof.chunk_hash.clone();
        let ghost full: Seq<(Seq<char>, bool)> = pair_views(merkle_proof.proof_hashes@);
        let mut i: usize = 0;
        proof {
            assert(full.skip(0) =~= full);
        }
        while i < merkle_proof.proof_hashes.len()
            invariant
                i <= merkle_proof.proof_hashes@.len(),
                full == pair_views(merkle_proof.proof_hashes@),
                fold_path(current_hash@, full.skip(i as int)) == fold_path(
                    merkle_proof.chunk_hash@,
                    full,
                ),
            decreases merkle_proof.proof_hashes@.len() - i,
        {
            let entry = &merkle_proof.proof_hashes[i];
            proof {
                assert(full.skip(i as int)[0] == full[i as int]);
                assert(full.skip(i as int).skip(1) =~= full.skip(i as int + 1));
            }
            if entry.1 {
                current_hash = Hasher::pair(&current_hash, &entry.0);
            } else {
                current_hash = Hasher::pair(&entry.0, &current_hash);
            }
            i = i + 1;
        }
        proof {
            assert(full.skip(merkle_proof.proof_hashes@.len() as int) =~= Seq::<
                (Seq<char>, bool),
            >::empty());
        }
        Ok(current_hash == merkle_proof.root_hash)
    }
}

} // verus!
