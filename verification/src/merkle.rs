//! Binary hash commitment tree over an ordered sequence of digests: builds
//! levels bottom-up (an unpaired last entry is combined with itself),
//! caches the root, and produces and checks per-leaf inclusion proofs that
//! share the same padding rule.

use crate::digest::combine_hashes;
use vstd::prelude::*;

verus! {

/// The views of a sequence of hash values.
pub open spec fn hash_views(s: Seq<crate::digest::Hash>) -> Seq<Seq<u8>> {
    s.map_values(|h: crate::digest::Hash| h@)
}

/// One level up: consecutive entries are combined pairwise; an unpaired
/// last entry is combined with itself.
pub open spec fn parent_level(level: Seq<Seq<u8>>) -> Seq<Seq<u8>> {
    Seq::new((level.len() + 1) / 2, |i: int|
        if 2 * i + 1 < level.len() {
            combine_hashes(level[2 * i], level[2 * i + 1])
        } else {
            combine_hashes(level[2 * i], level[2 * i])
        })
}

/// The root that repeated pairing reduces a non-empty level to; a
/// single-entry level is its own root.
pub open spec fn root_of(level: Seq<Seq<u8>>) -> Seq<u8>
    recommends
        level.len() >= 1,
    decreases level.len(),
{
    if level.len() == 1 {
        level[0]
    } else if level.len() == 0 {
        Seq::empty()
    } else {
        root_of(parent_level(level))
    }
}

/// The sibling that the entry at `i` is combined with: the neighbour at
/// `i +- 1`, or the entry itself when an odd level leaves it unpaired.
pub open spec fn sibling_in(level: Seq<Seq<u8>>, i: int) -> Seq<u8> {
    if i % 2 == 0 {
        if i + 1 < level.len() {
            level[i + 1]
        } else {
            level[i]
        }
    } else {
        level[i - 1]
    }
}

/// The inclusion proof for index `i`: one sibling per level strictly below
/// the root.
pub open spec fn proof_for(level: Seq<Seq<u8>>, i: int) -> Seq<Seq<u8>>
    decreases level.len(),
{
    if level.len() <= 1 {
        Seq::empty()
    } else {
        seq![sibling_in(level, i)] + proof_for(parent_level(level), i / 2)
    }
}

/// Folds a proof over a leaf: at each step the sibling is combined on the
/// right for an even index and on the left for an odd one, and the index
/// is halved.
pub open spec fn fold_proof(leaf: Seq<u8>, pr: Seq<Seq<u8>>, i: int) -> Seq<u8>
    decreases pr.len(),
{
    if pr.len() == 0 {
        leaf
    } else {
        fold_proof(
            if i % 2 == 0 {
                combine_hashes(leaf, pr[0])
            } else {
                combine_hashes(pr[0], leaf)
            },
            pr.drop_first(),
            i / 2,
        )
    }
}

/// Folding the proof for a valid index over the entry at that index
/// recomputes exactly the root of the level.
pub proof fn lemma_fold_matches_root(level: Seq<Seq<u8>>, i: int)
    requires
        0 <= i < level.len(),
    ensures
        fold_proof(level[i], proof_for(level, i), i) == root_of(level),
    decreases level.len(),
{
    if level.len() == 1 {
        assert(proof_for(level, i).len() == 0);
    } else {
        let p = parent_level(level);
        let sib = sibling_in(level, i);
        assert(0 <= i / 2 < p.len());
        let first = if i % 2 == 0 {
            combine_hashes(level[i], sib)
        } else {
            combine_hashes(sib, level[i])
        };
        assert(p[i / 2] == first) by {
            if i % 2 == 0 {
                assert(2 * (i / 2) == i);
            } else {
                assert(2 * (i / 2) == i - 1);
                assert(2 * (i / 2) + 1 == i);
            }
        }
        lemma_fold_matches_root(p, i / 2);
        assert((seq![sib] + proof_for(p, i / 2)).drop_first() =~= proof_for(p, i / 2));
        assert((seq![sib] + proof_for(p, i / 2))[0] == sib);
        assert(fold_proof(level[i], proof_for(level, i), i) == fold_proof(
            p[i / 2],
            proof_for(p, i / 2),
            i / 2,
        ));
    }
}

/// The stored levels form the bottom-up chain: the lowest level holds the
/// leaves and each level above is the parent of the one below.
pub open spec fn levels_linked(
    nodes: Seq<Vec<crate::digest::Hash>>,
    leaves: Seq<Seq<u8>>,
) -> bool {
    &&& nodes.len() >= 1 ==> hash_views(nodes[0]@) == leaves
    &&& forall|k: int|
        0 <= k < nodes.len() - 1 ==> hash_views(#[trigger] nodes[k + 1]@) == parent_level(
            hash_views(nodes[k]@),
        )
}

/// A commitment tree over an ordered sequence of leaf digests. The cached
/// root is defined exactly when `build` has run since the last insertion
/// and at least one leaf exists.
#[derive(Debug, Clone)]
pub struct FastMerkleTree {
    leaves: Vec<crate::digest::Hash>,
    nodes: Vec<Vec<crate::digest::Hash>>,
    root: Option<crate::digest::Hash>,
}

impl FastMerkleTree {
    /// The views of the leaf digests, in insertion order.
    pub closed spec fn leaf_views(&self) -> Seq<Seq<u8>> {
        hash_views(self.leaves@)
    }

    /// Number of leaves.
    pub closed spec fn spec_len(&self) -> nat {
        self.leaves@.len()
    }

    /// Whether a root is cached, i.e. the tree was built after the last
    /// insertion and has at least one leaf.
    pub closed spec fn is_built(&self) -> bool {
        self.root is Some
    }

    /// The cached root's view.
    pub closed spec fn root_view(&self) -> Seq<u8> {
        self.root.unwrap()@
    }

    /// Internal consistency: when a root is cached, the stored levels form
    /// the bottom-up chain from the leaves, every level below the top has
    /// at least two entries, the top level holds exactly the root, and the
    /// root is the one the leaf sequence determines.
    pub closed spec fn wf(&self) -> bool {
        self.is_built() ==> {
            &&& self.leaves@.len() >= 1
            &&& self.nodes@.len() >= 1
            &&& levels_linked(self.nodes@, self.leaf_views())
            &&& forall|k: int|
                0 <= k < self.nodes@.len() - 1 ==> (#[trigger] self.nodes@[k]@).len() > 1
            &&& self.nodes@.last()@.len() == 1
            &&& self.root_view() == hash_views(self.nodes@.last()@)[0]
            &&& self.root_view() == root_of(self.leaf_views())
        }
    }

    /// An empty, unbuilt tree.
    pub fn new() -> (r: Self)
        ensures
            r.wf(),
            !r.is_built(),
            r.spec_len() == 0,
            r.leaf_views() == Seq::<Seq<u8>>::empty(),
    {
        let r = Self { leaves: Vec::new(), nodes: Vec::new(), root: None };
        proof {
            assert(r.leaf_views() =~= Seq::<Seq<u8>>::empty());
        }
        r
    }

    /// A tree built over the hashes of the given strings, in order.
    #[verifier::loop_isolation(false)]
    pub fn from_data(data: Vec<String>) -> (r: Self)
        ensures
            r.wf(),
            r.leaf_views() == data@.map_values(
                |s: String| crate::digest::sha256(vstd::utf8::encode_utf8(s@)),
            ),
            r.spec_len() == data@.len(),
            r.is_built() <==> data@.len() > 0,
            r.is_built() ==> r.root_view() == root_of(r.leaf_views()),
    {
        let ghost target = data@.map_values(
            |s: String| crate::digest::sha256(vstd::utf8::encode_utf8(s@)),
        );
        let mut tree = Self::new();
        let mut i: usize = 0;
        while i < data.len()
            invariant
                i <= data@.len(),
                tree.wf(),
                !tree.is_built(),
                tree.spec_len() == i,
                tree.leaf_views() == target.take(i as int),
            decreases data@.len() - i,
        {
            tree.add_leaf(crate::digest::Hash::from_string(data[i].as_str()));
            proof {
                assert(target[i as int] == crate::digest::sha256(
                    vstd::utf8::encode_utf8(data@[i as int]@),
                ));
                assert(tree.leaf_views() =~= target.take(i + 1));
            }
            i = i + 1;
        }
        proof {
            assert(tree.leaf_views() =~= target);
        }
        tree.build();
        tree
    }

    /// Appends a leaf and invalidates the cached root.
    pub fn add_leaf(&mut self, leaf: crate::digest::Hash)
        ensures
            final(self).wf(),
            !final(self).is_built(),
            final(self).leaf_views() == old(self).leaf_views().push(leaf@),
            final(self).spec_len() == old(self).spec_len() + 1,
    {
        self.leaves.push(leaf);
        self.root = None;
        proof {
            assert(self.leaf_views() =~= old(self).leaf_views().push(leaf@));
        }
    }

    /// Recomputes all levels from the current leaf sequence; over zero
    /// leaves there is no root.
    #[verifier::loop_isolation(false)]
    pub fn build(&mut self)
        ensures
            final(self).wf(),
            final(self).leaf_views() == old(self).leaf_views(),
            final(self).spec_len() == old(self).spec_len(),
            final(self).is_built() <==> old(self).spec_len() > 0,
            old(self).spec_len() > 0 ==> final(self).root_view() == root_of(
                old(self).leaf_views(),
            ),
    {
        if self.leaves.len() == 0 {
            self.root = None;
            return;
        }
        self.nodes.clear();
        let mut current: Vec<crate::digest::Hash> = Vec::new();
        let mut i: usize = 0;
        while i < self.leaves.len()
            invariant
                i <= self.leaves@.len(),
                current@.len() == i,
                hash_views(current@) == self.leaf_views().take(i as int),
            decreases self.leaves@.len() - i,
        {
            current.push(self.leaves[i]);
            proof {
                assert(hash_views(current@) =~= self.leaf_views().take(i + 1));
            }
            i = i + 1;
        }
        proof {
            assert(hash_views(current@) =~= self.leaf_views());
        }
        while current.len() > 1
            invariant
                current@.len() >= 1,
                self.leaves@ == old(self).leaves@,
                self.root == old(self).root,
                self.nodes@.len() == 0 ==> hash_views(current@) == self.leaf_views(),
                levels_linked(self.nodes@, self.leaf_views()),
                forall|k: int|
                    0 <= k < self.nodes@.len() ==> (#[trigger] self.nodes@[k]@).len() > 1,
                self.nodes@.len() >= 1 ==> parent_level(hash_views(self.nodes@.last()@))
                    == hash_views(current@),
                root_of(hash_views(current@)) == root_of(self.leaf_views()),
            decreases current@.len(),
        {
            let ghost curv = hash_views(current@);
            let len = current.len();
            let mut next: Vec<crate::digest::Hash> = Vec::new();
            let mut j: usize = 0;
            while j < len
                invariant
                    j <= len,
                    len == current@.len(),
                    j % 2 == 0 || j == len,
                    next@.len() == (j + 1) / 2,
                    hash_views(next@) == parent_level(curv).take(((j + 1) / 2) as int),
                decreases len - j,
            {
                let combined = if j + 1 < len {
                    current[j].combine(&current[j + 1])
                } else {
                    current[j].combine(&current[j])
                };
                next.push(combined);
                proof {
                    let jj = j as int;
                    assert(hash_views(next@) =~= parent_level(curv).take(jj / 2 + 1));
                }
                if j + 1 < len {
                    j = j + 2;
                } else {
                    j = j + 1;
                }
            }
            proof {
                assert(hash_views(next@) =~= parent_level(curv));
            }
            let ghost old_nodes = self.nodes@;
            self.nodes.push(current);
            current = next;
            proof {
                let m = old_nodes.len() as int;
                let n = self.nodes@.len() as int;
                assert(n == m + 1);
                assert(forall|k: int| 0 <= k < m ==> self.nodes@[k] == old_nodes[k]);
                assert(hash_views(self.nodes@[m]@) == curv);
                assert forall|k: int| 0 <= k < n - 1 implies hash_views(
                    #[trigger] self.nodes@[k + 1]@,
                ) == parent_level(hash_views(self.nodes@[k]@)) by {
                    if k + 1 < m {
                        assert(self.nodes@[k + 1] == old_nodes[k + 1]);
                        assert(hash_views(old_nodes[k + 1]@) == parent_level(
                            hash_views(old_nodes[k]@),
                        ));
                    } else {
                        assert(k == m - 1);
                        assert(old_nodes.last() == old_nodes[k]);
                        assert(hash_views(self.nodes@[m]@) == curv);
                    }
                }
                assert(root_of(curv) == root_of(parent_level(curv)));
            }
        }
        self.root = Some(current[0]);
        proof {
            assert(hash_views(current@)[0] == current@[0]@);
            assert(root_of(hash_views(current@)) == current@[0]@);
        }
        let ghost old_nodes = self.nodes@;
        let ghost curv = hash_views(current@);
        self.nodes.push(current);
        proof {
            let m = old_nodes.len() as int;
            let n = self.nodes@.len() as int;
            assert(n == m + 1);
            assert(forall|k: int| 0 <= k < m ==> self.nodes@[k] == old_nodes[k]);
            assert(hash_views(self.nodes@[m]@) == curv);
            assert(self.nodes@.last() == self.nodes@[m]);
            assert forall|k: int| 0 <= k < n - 1 implies hash_views(
                #[trigger] self.nodes@[k + 1]@,
            ) == parent_level(hash_views(self.nodes@[k]@)) by {
                if k + 1 < m {
                    assert(self.nodes@[k + 1] == old_nodes[k + 1]);
                    assert(hash_views(old_nodes[k + 1]@) == parent_level(
                        hash_views(old_nodes[k]@),
                    ));
                } else {
                    assert(k == m - 1);
                    assert(old_nodes.last() == old_nodes[k]);
                    assert(hash_views(self.nodes@[m]@) == curv);
                }
            }
            assert forall|k: int| 0 <= k < n - 1 implies (#[trigger] self.nodes@[k]@).len()
                > 1 by {
                assert(self.nodes@[k] == old_nodes[k]);
            }
        }
    }

    /// The cached root, if the tree has been built since the last
    /// insertion.
    pub fn get_root(&self) -> (r: Option<&crate::digest::Hash>)
        requires
            self.wf(),
        ensures
            r is Some <==> self.is_built(),
            r matches Some(h) ==> h@ == self.root_view() && h@ == root_of(self.leaf_views()),
    {
        self.root.as_ref()
    }

    /// The inclusion proof for the leaf at `index`: absent when the index
    /// is out of range or the tree has not been built.
    #[verifier::loop_isolation(false)]
    pub fn get_proof(&self, index: usize) -> (r: Option<Vec<crate::digest::Hash>>)
        requires
            self.wf(),
        ensures
            r is Some <==> index < self.spec_len() && self.is_built(),
            r matches Some(pr) ==> hash_views(pr@) == proof_for(self.leaf_views(), index as int),
    {
        if index >= self.leaves.len() || self.root.is_none() {
            return None;
        }
        let mut pr: Vec<crate::digest::Hash> = Vec::new();
        let mut idx: usize = index;
        let n = self.nodes.len();
        let mut k: usize = 0;
        proof {
            assert(hash_views(pr@) =~= Seq::<Seq<u8>>::empty());
            assert(hash_views(self.nodes@[0]@) == self.leaf_views());
            assert(hash_views(pr@) + proof_for(hash_views(self.nodes@[0]@), index as int)
                =~= proof_for(self.leaf_views(), index as int));
        }
        while k < n - 1
            invariant
                k < n,
                idx < self.nodes@[k as int]@.len(),
                hash_views(pr@) + proof_for(hash_views(self.nodes@[k as int]@), idx as int)
                    == proof_for(self.leaf_views(), index as int),
            decreases n - k,
        {
            let level = &self.nodes[k];
            let ghost lv = hash_views(self.nodes@[k as int]@);
            let sib_i = if idx % 2 == 0 {
                if idx + 1 < level.len() {
                    idx + 1
                } else {
                    idx
                }
            } else {
                idx - 1
            };
            let ghost before = hash_views(pr@);
            pr.push(level[sib_i]);
            proof {
                assert(hash_views(pr@) =~= before.push(lv[sib_i as int]));
                assert(lv[sib_i as int] == sibling_in(lv, idx as int));
                assert(proof_for(lv, idx as int) == seq![sibling_in(lv, idx as int)] + proof_for(
                    parent_level(lv),
                    idx as int / 2,
                ));
                assert(parent_level(lv) == hash_views(self.nodes@[k + 1]@));
                assert(hash_views(pr@) + proof_for(hash_views(self.nodes@[k + 1]@), idx as int / 2)
                    =~= before + proof_for(lv, idx as int));
                assert(idx as int / 2 < parent_level(lv).len());
            }
            idx = idx / 2;
            k = k + 1;
        }
        proof {
            assert(self.nodes@[k as int] == self.nodes@.last());
            assert(proof_for(hash_views(self.nodes@[k as int]@), idx as int).len() == 0);
            assert(hash_views(pr@) =~= proof_for(self.leaf_views(), index as int));
        }
        Some(pr)
    }

    /// Checks an inclusion proof against the cached root: true exactly when
    /// a root is cached and folding the proof over the leaf reproduces it.
    pub fn verify_proof(&self, leaf: &crate::digest::Hash, proof: &[crate::digest::Hash], index: usize) -> (r: bool)
        ensures
            r == (self.is_built() && fold_proof(leaf@, hash_views(proof@), index as int)
                == self.root_view()),
    {
        match &self.root {
            Some(root) => {
                let calculated = self.calculate_root_from_proof(leaf, proof, index);
                calculated == *root
            },
            None => false,
        }
    }

    /// Folds the proof over the leaf, combining right for even indices and
    /// left for odd ones.
    #[verifier::loop_isolation(false)]
    fn calculate_root_from_proof(&self, leaf: &crate::digest::Hash, proof: &[crate::digest::Hash], index: usize) -> (r: crate::digest::Hash)
        ensures
            r@ == fold_proof(leaf@, hash_views(proof@), index as int),
    {
        let mut current: crate::digest::Hash = *leaf;
        let mut idx: usize = index;
        let mut i: usize = 0;
        proof {
            assert(hash_views(proof@).skip(0) =~= hash_views(proof@));
        }
        while i < proof.len()
            invariant
                i <= proof@.len(),
                fold_proof(current@, hash_views(proof@).skip(i as int), idx as int) == fold_proof(
                    leaf@,
                    hash_views(proof@),
                    index as int,
                ),
            decreases proof@.len() - i,
        {
            let ghost rest = hash_views(proof@).skip(i as int);
            let entry = &proof[i];
            current = if idx % 2 == 0 {
                current.combine(entry)
            } else {
                entry.combine(&current)
            };
            proof {
                assert(rest[0] == proof@[i as int]@);
                assert(rest.drop_first() =~= hash_views(proof@).skip(i + 1));
            }
            idx = idx / 2;
            i = i + 1;
        }
        proof {
            assert(hash_views(proof@).skip(proof@.len() as int).len() == 0);
        }
        current
    }

    /// Number of leaves.
    pub fn len(&self) -> (r: usize)
        ensures
            r == self.spec_len(),
    {
        self.leaves.len()
    }

    /// Whether the tree holds no leaves.
    pub fn is_empty(&self) -> (r: bool)
        ensures
            r == (self.spec_len() == 0),
    {
        self.leaves.is_empty()
    }
}

/// Identical leaf sequences determine identical roots: building is a pure
/// function of the ordered leaves.
pub proof fn lemma_root_deterministic(t1: FastMerkleTree, t2: FastMerkleTree)
    requires
        t1.wf(),
        t2.wf(),
        t1.is_built(),
        t2.is_built(),
        t1.leaf_views() == t2.leaf_views(),
    ensures
        t1.root_view() == t2.root_view(),
{
}

/// For every valid index of a built tree, folding the tree's own proof for
/// that index over the leaf at that index reproduces the tree's root, so
/// `verify_proof(leaf, get_proof(index), index)` succeeds.
pub proof fn lemma_proof_roundtrip(t: FastMerkleTree, index: int)
    requires
        t.wf(),
        t.is_built(),
        0 <= index < t.spec_len(),
    ensures
        fold_proof(t.leaf_views()[index], proof_for(t.leaf_views(), index), index)
            == t.root_view(),
{
    lemma_fold_matches_root(t.leaf_views(), index);
}

/// A tree built from a single leaf has that leaf's digest as its root: no
/// pairing occurs and the only level is the root level.
pub proof fn lemma_single_leaf_root(t: FastMerkleTree)
    requires
        t.wf(),
        t.is_built(),
        t.spec_len() == 1,
    ensures
        t.root_view() == t.leaf_views()[0],
{
}

} // verus!
