//! Merkle trees over byte strings and inclusion proofs.
//!
//! A leaf's node is the digest of its bytes; a parent is the digest of its
//! two children's 32 bytes, left then right. A level with an odd number of
//! nodes pairs its last node with itself.
use crate::types::{bytes32_eq, spec_hash_bytes, BlockNumber, ChainId};
use vstd::prelude::*;

verus! {

broadcast use vstd::array::group_array_axioms;

/// Digest of `left ++ right`.
pub open spec fn hash_pair(left: Seq<u8>, right: Seq<u8>) -> Seq<u8> {
    spec_hash_bytes(left + right)
}

/// The root reached from `node` at position `index` by combining it with
/// `siblings`, lowest level first.
pub open spec fn fold_root(node: Seq<u8>, index: nat, siblings: Seq<Seq<u8>>) -> Seq<u8>
    decreases siblings.len(),
{
    if siblings.len() == 0 {
        node
    } else {
        let parent = if index % 2 == 0 {
            hash_pair(node, siblings[0])
        } else {
            hash_pair(siblings[0], node)
        };
        fold_root(parent, index / 2, siblings.drop_first())
    }
}

pub open spec fn sibling_views(s: Seq<[u8; 32]>) -> Seq<Seq<u8>> {
    s.map_values(|a: [u8; 32]| a@)
}

/// The 64 bytes `a ++ b`.
fn concat32(a: &[u8; 32], b: &[u8; 32]) -> (r: Vec<u8>)
    ensures
        r@ == a@ + b@,
{
    let mut v: Vec<u8> = Vec::new();
    let mut i: usize = 0;
    while i < 32
        invariant
            i <= 32,
            v@ == a@.take(i as int),
        decreases 32 - i,
    {
        v.push(a[i]);
        i = i + 1;
        assert(v@ =~= a@.take(i as int));
    }
    let mut j: usize = 0;
    while j < 32
        invariant
            j <= 32,
            v@ == a@ + b@.take(j as int),
            a@.len() == 32,
        decreases 32 - j,
    {
        v.push(b[j]);
        j = j + 1;
        assert(v@ =~= a@ + b@.take(j as int));
    }
    assert(b@.take(32) =~= b@);
    assert(a@.take(32) =~= a@);
    v
}

/// Digest of two nodes, left then right.
pub fn hash_nodes(left: &[u8; 32], right: &[u8; 32]) -> (r: crate::types::Hash)
    ensures
        r.bytes@ == hash_pair(left@, right@),
{
    let v = concat32(left, right);
    crate::types::Hash::hash(v.as_slice())
}

/// Proof that `leaf` sits at `leaf_index` in a tree with root `root`.
#[derive(Debug, Clone)]
pub struct MerkleProof {
    pub leaf: Vec<u8>,
    pub leaf_index: usize,
    pub siblings: Vec<[u8; 32]>,
    pub root: crate::types::Hash,
    pub block_number: BlockNumber,
    pub chain_id: ChainId,
}

impl MerkleProof {
    pub open spec fn spec_verify(&self) -> bool {
        fold_root(spec_hash_bytes(self.leaf@), self.leaf_index as nat, sibling_views(self.siblings@))
            == self.root.bytes@
    }

    pub fn new(
        leaf: Vec<u8>,
        leaf_index: usize,
        siblings: Vec<[u8; 32]>,
        root: crate::types::Hash,
        block_number: BlockNumber,
        chain_id: ChainId,
    ) -> (p: Self)
        ensures
            p.leaf@ == leaf@,
            p.leaf_index == leaf_index,
            p.siblings@ == siblings@,
            p.root == root,
            p.block_number == block_number,
            p.chain_id == chain_id,
    {
        MerkleProof { leaf, leaf_index, siblings, root, block_number, chain_id }
    }

    /// Whether folding the leaf with the siblings gives the root.
    pub fn verify(&self) -> (b: bool)
        ensures
            b == self.spec_verify(),
    {
        let ghost sv = sibling_views(self.siblings@);
        let ghost total = fold_root(spec_hash_bytes(self.leaf@), self.leaf_index as nat, sv);
        let mut node = crate::types::Hash::hash(self.leaf.as_slice());
        let mut index: usize = self.leaf_index;
        let mut i: usize = 0;
        proof {
            assert(sv.skip(0) =~= sv);
        }
        while i < self.siblings.len()
            invariant
                i <= self.siblings@.len(),
                sv == sibling_views(self.siblings@),
                sv.len() == self.siblings@.len(),
                fold_root(node.bytes@, index as nat, sv.skip(i as int)) == total,
            decreases self.siblings@.len() - i,
        {
            let sib = &self.siblings[i];
            proof {
                assert(sv.skip(i as int)[0] == sib@);
                assert(sv.skip(i as int).drop_first() =~= sv.skip(i + 1));
            }
            if index % 2 == 0 {
                node = hash_nodes(&node.bytes, sib);
            } else {
                node = hash_nodes(sib, &node.bytes);
            }
            index = index / 2;
            i = i + 1;
        }
        proof {
            assert(sv.skip(sv.len() as int) =~= Seq::<Seq<u8>>::empty());
            if node.bytes@ == self.root.bytes@ {
                assert(node.bytes =~= self.root.bytes);
            }
        }
        bytes32_eq(&node.bytes, &self.root.bytes)
    }
}

/// Index of the sibling of position `i` in a level of `n` nodes (the last
/// node of an odd level is its own sibling).
pub open spec fn sibling_index(i: int, n: int) -> int {
    if i % 2 == 0 {
        if i + 1 < n {
            i + 1
        } else {
            i
        }
    } else {
        i - 1
    }
}

/// `next` is the level above `level`.
pub open spec fn is_parent_level(level: Seq<[u8; 32]>, next: Seq<[u8; 32]>) -> bool {
    &&& next.len() == (level.len() + 1) / 2
    &&& forall|j: int|
        0 <= j < next.len() ==> #[trigger] next[j]@ == hash_pair(
            level[2 * j]@,
            level[sibling_index(2 * j, level.len() as int)]@,
        )
}

/// A Merkle tree kept level by level, leaves first, root level last.
pub struct StateMerkleTree {
    leaves: Vec<Vec<u8>>,
    levels: Vec<Vec<[u8; 32]>>,
}

impl StateMerkleTree {
    pub closed spec fn levels_view(&self) -> Seq<Seq<[u8; 32]>> {
        self.levels@.map_values(|l: Vec<[u8; 32]>| l@)
    }

    pub closed spec fn leaves_view(&self) -> Seq<Seq<u8>> {
        self.leaves@.map_values(|l: Vec<u8>| l@)
    }

    /// Each level above the leaves halves the one below, rounding up.
    pub closed spec fn wf(&self) -> bool {
        let lv = self.levels_view();
        &&& lv.len() >= 1
        &&& lv[0].len() == self.leaves@.len()
        &&& forall|k: int| 0 <= k < lv.len() - 1 ==> #[trigger] lv[k + 1].len() == (lv[k].len() + 1) / 2
    }

    /// The levels are well built from `leaves`.
    pub open spec fn built_from(&self, leaves: Seq<Seq<u8>>) -> bool {
        let lv = self.levels_view();
        &&& lv.len() >= 1
        &&& lv[0].len() == leaves.len()
        &&& forall|i: int| 0 <= i < leaves.len() ==> #[trigger] lv[0][i]@ == spec_hash_bytes(leaves[i])
        &&& forall|k: int| 0 <= k < lv.len() - 1 ==> is_parent_level(#[trigger] lv[k], lv[k + 1])
        &&& lv.last().len() <= 1
        &&& forall|k: int| 0 <= k < lv.len() - 1 ==> #[trigger] lv[k].len() > 1
    }

    fn parent_level(level: &Vec<[u8; 32]>) -> (next: Vec<[u8; 32]>)
        requires
            level@.len() < usize::MAX / 2,
        ensures
            is_parent_level(level@, next@),
    {
        let n = level.len();
        let mut next: Vec<[u8; 32]> = Vec::new();
        let mut i: usize = 0;
        while i < n
            invariant
                n == level@.len(),
                n < usize::MAX / 2,
                i % 2 == 0,
                i <= n + 1,
                next@.len() == i / 2,
                i >= n ==> next@.len() == (n + 1) / 2,
                forall|j: int|
                    0 <= j < next@.len() ==> #[trigger] next@[j]@ == hash_pair(
                        level@[2 * j]@,
                        level@[sibling_index(2 * j, n as int)]@,
                    ),
            decreases n + 1 - i,
        {
            let right_i = if i + 1 < n {
                i + 1
            } else {
                i
            };
            let h = hash_nodes(&level[i], &level[right_i]);
            next.push(h.bytes);
            i = i + 2;
        }
        next
    }

    /// Builds the tree of `leaves`.
    pub fn new(leaves: Vec<Vec<u8>>) -> (t: Self)
        requires
            leaves@.len() < usize::MAX / 2,
        ensures
            t.wf(),
            t.leaves_view() == leaves@.map_values(|l: Vec<u8>| l@),
            t.built_from(leaves@.map_values(|l: Vec<u8>| l@)),
    {
        let ghost lv = leaves@.map_values(|l: Vec<u8>| l@);
        let mut first: Vec<[u8; 32]> = Vec::new();
        let mut i: usize = 0;
        while i < leaves.len()
            invariant
                i <= leaves@.len(),
                lv == leaves@.map_values(|l: Vec<u8>| l@),
                first@.len() == i,
                forall|j: int| 0 <= j < i ==> #[trigger] first@[j]@ == spec_hash_bytes(lv[j]),
            decreases leaves@.len() - i,
        {
            let h = crate::types::Hash::hash(leaves[i].as_slice());
            first.push(h.bytes);
            i = i + 1;
        }
        let mut levels: Vec<Vec<[u8; 32]>> = Vec::new();
        let mut cur = first;
        while cur.len() > 1
            invariant
                cur@.len() <= lv.len(),
                lv.len() < usize::MAX / 2,
                levels@.len() == 0 ==> cur@.len() == lv.len() && forall|j: int|
                    0 <= j < lv.len() ==> #[trigger] cur@[j]@ == spec_hash_bytes(lv[j]),
                levels@.len() > 0 ==> {
                    let vs = levels@.map_values(|l: Vec<[u8; 32]>| l@);
                    &&& vs[0].len() == lv.len()
                    &&& forall|j: int| 0 <= j < lv.len() ==> #[trigger] vs[0][j]@ == spec_hash_bytes(lv[j])
                    &&& forall|k: int| 0 <= k < vs.len() - 1 ==> is_parent_level(#[trigger] vs[k], vs[k + 1])
                    &&& is_parent_level(vs.last(), cur@)
                    &&& forall|k: int| 0 <= k < vs.len() ==> #[trigger] vs[k].len() > 1
                },
            decreases cur@.len(),
        {
            let next = Self::parent_level(&cur);
            let ghost old_levels = levels@.map_values(|l: Vec<[u8; 32]>| l@);
            let ghost cur_v = cur@;
            levels.push(cur);
            cur = next;
            proof {
                let vs = levels@.map_values(|l: Vec<[u8; 32]>| l@);
                assert(vs =~= old_levels.push(cur_v));
            }
        }
        let ghost before = levels@.map_values(|l: Vec<[u8; 32]>| l@);
        let ghost last = cur@;
        levels.push(cur);
        let t = StateMerkleTree { leaves, levels };
        proof {
            let vs = t.levels_view();
            assert(vs =~= before.push(last));
            assert forall|k: int| 0 <= k < vs.len() - 1 implies #[trigger] vs[k + 1].len() == (vs[k].len() + 1) / 2 by {
                assert(is_parent_level(vs[k], vs[k + 1]));
            }
        }
        t
    }

    /// The root node (the all-zero hash for an empty tree).
    pub fn root(&self) -> (r: crate::types::Hash)
        requires
            self.wf(),
        ensures
            self.levels_view().last().len() == 1 ==> r.bytes@ == self.levels_view().last()[0]@,
    {
        let last = &self.levels[self.levels.len() - 1];
        if last.len() >= 1 {
            crate::types::Hash::from_bytes(last[0])
        } else {
            crate::types::Hash::zero()
        }
    }

    /// A proof for leaf `index`: at each level below the root, the node paired
    /// with the path's node. None when `index` is not a leaf position.
    pub fn generate_proof(&self, index: usize, block_number: BlockNumber, chain_id: ChainId) -> (r:
        Option<MerkleProof>)
        requires
            self.wf(),
        ensures
            r is None <==> index >= self.levels_view()[0].len(),
            r matches Some(p) ==> {
                let lv = self.levels_view();
                &&& p.leaf@ == self.leaves_view()[index as int]
                &&& p.leaf_index == index
                &&& p.block_number == block_number
                &&& p.chain_id == chain_id
                &&& p.siblings@.len() == lv.len() - 1
                &&& lv.last().len() == 1 ==> p.root.bytes@ == lv.last()[0]@
            },
    {
        if index >= self.levels[0].len() {
            return None;
        }
        let mut siblings: Vec<[u8; 32]> = Vec::new();
        let mut pos = index;
        let nlev = self.levels.len();
        let mut k: usize = 0;
        while k + 1 < nlev
            invariant
                self.wf(),
                nlev == self.levels@.len(),
                nlev >= 1,
                k < nlev,
                siblings@.len() == k,
                pos < self.levels@[k as int]@.len(),
            decreases nlev - k,
        {
            proof {
                assert(self.levels_view()[k + 1].len() == (self.levels_view()[k as int].len() + 1) / 2);
            }
            let level = &self.levels[k];
            let n = level.len();
            let sib = if pos % 2 == 0 {
                if pos + 1 < n {
                    pos + 1
                } else {
                    pos
                }
            } else {
                pos - 1
            };
            siblings.push(level[sib]);
            pos = pos / 2;
            k = k + 1;
        }
        let root = self.root();
        let leaf = self.leaves[index].clone();
        proof {
            assert(leaf@ =~= self.leaves@[index as int]@);
        }
        Some(MerkleProof { leaf, leaf_index: index, siblings, root, block_number, chain_id })
    }
}

} // verus!
