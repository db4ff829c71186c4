//! The sparse Merkle tree shared by the client, intermediate and root layers.
//!
//! The tree is a fixed-height (256 levels) key-value commitment structure.
//! A leaf's hash is the digest of its key and value; an interior node's hash
//! is the digest of its two child hashes, with an all-zero sentinel standing
//! for an absent child or an empty tree. The root is therefore a function of
//! the leaves alone, which is the invariant every operation preserves.

use vstd::prelude::*;

use crate::boc::Boc;
use crate::errors::SystemError;
use crate::hashing::{leaf_hash, leaf_hash_spec, node_hash, node_hash_spec, zero_hash,
    zero_hash_bytes};
use crate::util::{bytes32_eq, copy_bytes};

verus! {

/// A populated leaf: the 256-bit path it occupies, and the key and value
/// whose digest it commits to.
pub struct SmtLeaf {
    /// The key normalised to 32 bytes; its bits, most significant first,
    /// select the branch taken at each of the 256 levels.
    pub path: [u8; 32],
    /// The key exactly as the caller supplied it.
    pub key: Vec<u8>,
    /// The value committed under the key.
    pub value: Vec<u8>,
}

/// The mathematical image of a leaf.
pub struct LeafView {
    pub path: Seq<u8>,
    pub key: Seq<u8>,
    pub value: Seq<u8>,
}

impl View for SmtLeaf {
    type V = LeafView;

    open spec fn view(&self) -> LeafView {
        LeafView { path: self.path@, key: self.key@, value: self.value@ }
    }
}

/// The images of a sequence of leaves.
pub open spec fn leaves_view(s: Seq<SmtLeaf>) -> Seq<LeafView> {
    s.map_values(|l: SmtLeaf| l@)
}

/// Bit `pos` (0 = most significant) of a byte.
pub open spec fn byte_bit(b: u8, pos: int) -> bool
    recommends
        0 <= pos < 8,
{
    ((b >> ((7 - pos) as u8)) & 1u8) == 1u8
}

/// Bit `i` of a key read most-significant-bit first, one bit per level;
/// bits beyond the key's length are zero.
pub open spec fn key_bit(key: Seq<u8>, i: int) -> bool {
    if 0 <= i / 8 < key.len() {
        byte_bit(key[i / 8], i % 8)
    } else {
        false
    }
}

/// The key normalised to the 32 bytes that carry its 256 path bits.
pub open spec fn key_path(key: Seq<u8>) -> Seq<u8> {
    Seq::new(32, |b: int| if b < key.len() { key[b] } else { 0u8 })
}

/// The leaves of `ls` whose path bit at `depth` equals `bit`.
pub open spec fn filter_bit(ls: Seq<LeafView>, depth: int, bit: bool) -> Seq<LeafView> {
    ls.filter(|l: LeafView| key_bit(l.path, depth) == bit)
}

/// The hash of the subtree at `depth` holding exactly the leaves `ls`.
///
/// An empty subtree is the all-zero sentinel; at the bottom level the single
/// remaining leaf contributes its leaf hash; otherwise the two half-populations
/// are hashed together.
pub open spec fn subtree_hash(ls: Seq<LeafView>, depth: int) -> Seq<u8>
    decreases 256 - depth,
{
    if ls.len() == 0 {
        zero_hash()
    } else if depth < 0 || depth >= 256 {
        leaf_hash_spec(ls[0].key, ls[0].value)
    } else {
        node_hash_spec(
            subtree_hash(filter_bit(ls, depth, false), depth + 1),
            subtree_hash(filter_bit(ls, depth, true), depth + 1),
        )
    }
}

/// The root committed to by a population of leaves.
pub open spec fn root_spec(ls: Seq<LeafView>) -> Seq<u8> {
    subtree_hash(ls, 0)
}

/// The leaves of `ls` whose path differs from `path`.
pub open spec fn remove_path(ls: Seq<LeafView>, path: Seq<u8>) -> Seq<LeafView> {
    ls.filter(|l: LeafView| l.path != path)
}

/// The population after an update: any leaf on the key's path is replaced,
/// and the new leaf appended.
pub open spec fn spec_insert(ls: Seq<LeafView>, key: Seq<u8>, value: Seq<u8>) -> Seq<LeafView> {
    remove_path(ls, key_path(key)).push(LeafView { path: key_path(key), key: key, value: value })
}

/// Filtering a sequence extended by one element keeps the prefix's image and
/// appends the element exactly when it satisfies the predicate.
pub proof fn lemma_filter_push<A>(s: Seq<A>, x: A, pred: spec_fn(A) -> bool)
    ensures
        s.push(x).filter(pred) == if pred(x) {
            s.filter(pred).push(x)
        } else {
            s.filter(pred)
        },
{
    reveal(Seq::filter);
    assert(s.push(x).drop_last() =~= s);
    assert(s.push(x).last() == x);
}

/// A sequence whose elements all satisfy the predicate is unchanged by
/// filtering.
pub proof fn lemma_filter_all<A>(s: Seq<A>, pred: spec_fn(A) -> bool)
    requires
        forall|i: int| 0 <= i < s.len() ==> pred(#[trigger] s[i]),
    ensures
        s.filter(pred) == s,
    decreases s.len(),
{
    reveal(Seq::filter);
    if s.len() == 0 {
        assert(s.filter(pred) =~= s);
    } else {
        lemma_filter_all(s.drop_last(), pred);
        assert(s.filter(pred) =~= s);
    }
}

/// Extracts bit `i` of a key, most-significant-bit first.
pub fn key_bit_exec(key: &[u8], i: usize) -> (r: bool)
    requires
        i < usize::MAX,
    ensures
        r == key_bit(key@, i as int),
{
    let byte = i / 8;
    if byte < key.len() {
        let sh: u8 = 7 - ((i % 8) as u8);
        ((key[byte] >> sh) & 1u8) == 1u8
    } else {
        false
    }
}

/// Normalises a key to its 32 path bytes.
pub fn key_path_bytes(key: &[u8]) -> (r: [u8; 32])
    ensures
        r@ == key_path(key@),
{
    let mut r = [0u8; 32];
    let mut b: usize = 0;
    while b < 32
        invariant
            b <= 32,
            r@.len() == 32,
            forall|j: int| 0 <= j < b ==> r@[j] == key_path(key@)[j],
            forall|j: int| b <= j < 32 ==> r@[j] == 0u8,
        decreases 32 - b,
    {
        if b < key.len() {
            r[b] = key[b];
        }
        b = b + 1;
    }
    proof {
        assert(r@ =~= key_path(key@));
    }
    r
}

/// A path bit carried by the normalised bytes agrees with the key's bit.
pub proof fn lemma_path_bits(key: Seq<u8>, i: int)
    requires
        0 <= i < 256,
    ensures
        key_bit(key_path(key), i) == key_bit(key, i),
{
    let byte = i / 8;
    assert(0 <= byte < 32);
    if byte < key.len() {
        assert(key_path(key)[byte] == key[byte]);
    } else {
        assert(key_path(key)[byte] == 0u8);
        let sh = (7 - (i % 8)) as u8;
        assert(((0u8 >> sh) & 1u8) != 1u8) by (bit_vector);
    }
}

/// Copies a leaf.
fn clone_leaf(l: &SmtLeaf) -> (r: SmtLeaf)
    ensures
        r@ == l@,
{
    SmtLeaf { path: l.path, key: copy_bytes(l.key.as_slice()), value: copy_bytes(l.value.as_slice()) }
}

/// Splits leaves by their path bit at `depth`: those with a zero bit, then
/// those with a one bit.
fn partition_by_bit(leaves: &Vec<SmtLeaf>, depth: usize) -> (r: (Vec<SmtLeaf>, Vec<SmtLeaf>))
    requires
        depth < 256,
    ensures
        leaves_view(r.0@) == filter_bit(leaves_view(leaves@), depth as int, false),
        leaves_view(r.1@) == filter_bit(leaves_view(leaves@), depth as int, true),
{
    let ghost all = leaves_view(leaves@);
    let mut zeros: Vec<SmtLeaf> = Vec::new();
    let mut ones: Vec<SmtLeaf> = Vec::new();
    let mut i: usize = 0;
    proof {
        assert(leaves_view(zeros@) =~= Seq::<LeafView>::empty());
        assert(leaves_view(ones@) =~= Seq::<LeafView>::empty());
        assert(all.subrange(0, 0).filter(|l: LeafView| key_bit(l.path, depth as int) == false)
            =~= Seq::<LeafView>::empty()) by {
            reveal(Seq::filter);
        }
        assert(all.subrange(0, 0).filter(|l: LeafView| key_bit(l.path, depth as int) == true)
            =~= Seq::<LeafView>::empty()) by {
            reveal(Seq::filter);
        }
    }
    while i < leaves.len()
        invariant
            i <= leaves@.len(),
            all == leaves_view(leaves@),
            all.len() == leaves@.len(),
            leaves_view(zeros@) == filter_bit(all.subrange(0, i as int), depth as int, false),
            leaves_view(ones@) == filter_bit(all.subrange(0, i as int), depth as int, true),
            depth < 256,
        decreases leaves@.len() - i,
    {
        let l = &leaves[i];
        let bit = key_bit_exec(l.path.as_slice(), depth);
        proof {
            assert(all[i as int] == leaves@[i as int]@);
            assert(all.subrange(0, i + 1 as int) =~= all.subrange(0, i as int).push(
                all[i as int],
            ));
            lemma_filter_push(
                all.subrange(0, i as int),
                all[i as int],
                |l: LeafView| key_bit(l.path, depth as int) == false,
            );
            lemma_filter_push(
                all.subrange(0, i as int),
                all[i as int],
                |l: LeafView| key_bit(l.path, depth as int) == true,
            );
        }
        if !bit {
            let ghost prev = zeros@;
            zeros.push(clone_leaf(l));
            proof {
                assert(leaves_view(zeros@) =~= leaves_view(prev).push(leaves@[i as int]@));
            }
        } else {
            let ghost prev = ones@;
            ones.push(clone_leaf(l));
            proof {
                assert(leaves_view(ones@) =~= leaves_view(prev).push(leaves@[i as int]@));
            }
        }
        proof {
            assert(leaves_view(zeros@) =~= filter_bit(
                all.subrange(0, i + 1 as int),
                depth as int,
                false,
            ));
            assert(leaves_view(ones@) =~= filter_bit(
                all.subrange(0, i + 1 as int),
                depth as int,
                true,
            ));
        }
        i = i + 1;
    }
    proof {
        assert(all.subrange(0, all.len() as int) =~= all);
    }
    (zeros, ones)
}

/// Computes the hash of the subtree at `depth` populated by `leaves`.
fn subtree_hash_exec(leaves: &Vec<SmtLeaf>, depth: usize) -> (r: [u8; 32])
    requires
        depth <= 256,
    ensures
        r@ == subtree_hash(leaves_view(leaves@), depth as int),
    decreases 256 - depth,
{
    if leaves.len() == 0 {
        proof {
            assert(leaves_view(leaves@).len() == 0);
        }
        zero_hash_bytes()
    } else if depth == 256 {
        let l = &leaves[0];
        proof {
            assert(leaves_view(leaves@)[0] == leaves@[0]@);
        }
        leaf_hash(l.key.as_slice(), l.value.as_slice())
    } else {
        let (zeros, ones) = partition_by_bit(leaves, depth);
        let lh = subtree_hash_exec(&zeros, depth + 1);
        let rh = subtree_hash_exec(&ones, depth + 1);
        node_hash(&lh, &rh)
    }
}

/// The sparse Merkle tree: a root commitment, the populated leaves behind it,
/// and the log of root transitions its updates have produced.
pub struct SparseMerkleTreeI {
    root_hash: [u8; 32],
    leaves: Vec<SmtLeaf>,
    transitions: Vec<([u8; 32], [u8; 32])>,
    history: Ghost<Seq<(Seq<LeafView>, Seq<u8>, Seq<u8>)>>,
}

impl SparseMerkleTreeI {
    /// The populated leaves.
    pub closed spec fn leaves(&self) -> Seq<LeafView> {
        leaves_view(self.leaves@)
    }

    /// The current root hash.
    pub closed spec fn root_view(&self) -> Seq<u8> {
        self.root_hash@
    }

    /// Every root transition an update has produced, oldest first.
    pub closed spec fn transitions_view(&self) -> Seq<(Seq<u8>, Seq<u8>)> {
        self.transitions@.map_values(|t: ([u8; 32], [u8; 32])| (t.0@, t.1@))
    }

    /// Well-formed: the root is the commitment of the leaves, every leaf's
    /// path is its key's normalisation, and every logged transition is
    /// witnessed by the single update that produced it: a leaf population
    /// committing to the old root, and a key and value whose insertion
    /// commits to the new one.
    pub closed spec fn wf(&self) -> bool {
        &&& self.root_hash@ == root_spec(leaves_view(self.leaves@))
        &&& forall|i: int|
            0 <= i < self.leaves@.len() ==> (#[trigger] self.leaves@[i])@.path == key_path(
                self.leaves@[i]@.key,
            )
        &&& self.history@.len() == self.transitions@.len()
        &&& forall|i: int|
            0 <= i < self.transitions@.len() ==> (#[trigger] self.transitions@[i]).0@ == root_spec(
                self.history@[i].0,
            ) && self.transitions@[i].1@ == root_spec(
                spec_insert(self.history@[i].0, self.history@[i].1, self.history@[i].2),
            )
    }

    /// A well-formed tree's root is the commitment of its leaves.
    pub proof fn lemma_wf_root(&self)
        requires
            self.wf(),
        ensures
            self.root_view() == root_spec(self.leaves()),
            self.root_view().len() == 32,
    {
    }

    /// Creates an empty tree, whose root is the all-zero sentinel.
    pub fn new() -> (r: Self)
        ensures
            r.wf(),
            r.leaves() == Seq::<LeafView>::empty(),
            r.root_view() == zero_hash(),
            r.transitions_view() == Seq::<(Seq<u8>, Seq<u8>)>::empty(),
    {
        let r = SparseMerkleTreeI {
            root_hash: zero_hash_bytes(),
            leaves: Vec::new(),
            transitions: Vec::new(),
            history: Ghost(Seq::empty()),
        };
        proof {
            assert(r.leaves() =~= Seq::<LeafView>::empty());
            assert(r.transitions_view() =~= Seq::<(Seq<u8>, Seq<u8>)>::empty());
        }
        r
    }

    /// The current root hash.
    pub fn root(&self) -> (r: [u8; 32])
        ensures
            r@ == self.root_view(),
    {
        self.root_hash
    }

    /// Replaces or creates the leaf on `key`'s path, recomputes the root as
    /// the fold of the leaf population, logs the transition, and returns the
    /// new root.
    ///
    /// On a well-formed tree the walk cannot meet a missing node, so the
    /// operation always succeeds; the `Result` carries the fatal consistency
    /// error reserved for corrupted trees.
    pub fn update(&mut self, key: &[u8], value: &[u8]) -> (r: Result<[u8; 32], SystemError>)
        requires
            old(self).wf(),
        ensures
            final(self).wf(),
            r is Ok,
            final(self).leaves() == spec_insert(old(self).leaves(), key@, value@),
            final(self).root_view() == root_spec(final(self).leaves()),
            r matches Ok(h) ==> h@ == final(self).root_view(),
            final(self).transitions_view() == old(self).transitions_view().push(
                (old(self).root_view(), final(self).root_view()),
            ),
    {
        let path = key_path_bytes(key);
        let ghost all = leaves_view(self.leaves@);
        let mut kept: Vec<SmtLeaf> = Vec::new();
        proof {
            assert(leaves_view(kept@) =~= Seq::<LeafView>::empty());
            assert(remove_path(all.subrange(0, 0), key_path(key@)) =~= Seq::<LeafView>::empty())
                by {
                reveal(Seq::filter);
            }
        }
        let mut i: usize = 0;
        while i < self.leaves.len()
            invariant
                i <= self.leaves@.len(),
                all == leaves_view(self.leaves@),
                all.len() == self.leaves@.len(),
                path@ == key_path(key@),
                leaves_view(kept@) == remove_path(all.subrange(0, i as int), key_path(key@)),
                forall|j: int|
                    0 <= j < kept@.len() ==> (#[trigger] kept@[j])@.path == key_path(
                        kept@[j]@.key,
                    ),
                forall|j: int|
                    0 <= j < self.leaves@.len() ==> (#[trigger] self.leaves@[j])@.path == key_path(
                        self.leaves@[j]@.key,
                    ),
            decreases self.leaves@.len() - i,
        {
            let l = &self.leaves[i];
            proof {
                assert(all[i as int] == self.leaves@[i as int]@);
                assert(all.subrange(0, i + 1 as int) =~= all.subrange(0, i as int).push(
                    all[i as int],
                ));
                lemma_filter_push(
                    all.subrange(0, i as int),
                    all[i as int],
                    |lv: LeafView| lv.path != key_path(key@),
                );
            }
            if !bytes32_eq(&l.path, &path) {
                let ghost prev = kept@;
                kept.push(clone_leaf(l));
                proof {
                    assert(leaves_view(kept@) =~= leaves_view(prev).push(self.leaves@[i as int]@));
                }
            }
            i = i + 1;
        }
        proof {
            assert(all.subrange(0, all.len() as int) =~= all);
        }
        let ghost removed = leaves_view(kept@);
        kept.push(SmtLeaf { path, key: copy_bytes(key), value: copy_bytes(value) });
        proof {
            assert(leaves_view(kept@) =~= removed.push(
                LeafView { path: key_path(key@), key: key@, value: value@ },
            ));
        }
        let new_root = subtree_hash_exec(&kept, 0);
        let prev_root = self.root_hash;
        self.transitions.push((prev_root, new_root));
        proof {
            let h = self.history@.push((leaves_view(old(self).leaves@), key@, value@));
            self.history@ = h;
        }
        self.leaves = kept;
        self.root_hash = new_root;
        proof {
            assert(self.transitions_view() =~= old(self).transitions_view().push(
                (old(self).root_view(), new_root@),
            ));
        }
        Ok(new_root)
    }

    /// Law: a transition this tree vouches for is derivable by one valid
    /// leaf update: some leaf population commits to the old root, and
    /// inserting one key and value into it commits to the new root.
    pub proof fn lemma_transition_is_single_update(&self, prev_root: Seq<u8>, new_root: Seq<u8>)
        requires
            self.wf(),
            self.transitions_view().contains((prev_root, new_root)),
        ensures
            exists|ls: Seq<LeafView>, k: Seq<u8>, v: Seq<u8>|
                prev_root == root_spec(ls) && new_root == #[trigger] root_spec(
                    spec_insert(ls, k, v),
                ),
    {
        let tv = self.transitions_view();
        let j = choose|j: int| 0 <= j < tv.len() && tv[j] == (prev_root, new_root);
        assert(tv[j] == (self.transitions@[j].0@, self.transitions@[j].1@));
        let w = self.history@[j];
        assert(prev_root == root_spec(w.0));
        assert(new_root == root_spec(spec_insert(w.0, w.1, w.2)));
    }

    /// True exactly when some single update carried this tree from
    /// `prev_root` to `new_root`: the structural gate for cross-layer root
    /// propagation.
    pub fn verify_root_transition(&self, prev_root: &[u8; 32], new_root: &[u8; 32]) -> (r: bool)
        ensures
            r == self.transitions_view().contains((prev_root@, new_root@)),
    {
        let ghost pair = (prev_root@, new_root@);
        let mut i: usize = 0;
        while i < self.transitions.len()
            invariant
                i <= self.transitions@.len(),
                forall|j: int| 0 <= j < i ==> self.transitions_view()[j] != pair,
                pair == (prev_root@, new_root@),
            decreases self.transitions@.len() - i,
        {
            let (p, n) = self.transitions[i];
            if bytes32_eq(&p, prev_root) && bytes32_eq(&n, new_root) {
                proof {
                    assert(self.transitions_view()[i as int] == pair);
                }
                return true;
            }
            i = i + 1;
        }
        proof {
            if self.transitions_view().contains(pair) {
                let j = choose|j: int|
                    0 <= j < self.transitions_view().len() && self.transitions_view()[j] == pair;
                assert(false);
            }
        }
        false
    }
}

/// One level of an inclusion proof: the sibling subtree's hash and the side
/// it stands on.
pub struct ProofStep {
    /// Hash of the sibling subtree at this level.
    pub sibling: [u8; 32],
    /// True when the sibling is the left child, that is, when the key's own
    /// bit at this level is one.
    pub sibling_is_left: bool,
}

impl View for ProofStep {
    type V = (Seq<u8>, bool);

    open spec fn view(&self) -> (Seq<u8>, bool) {
        (self.sibling@, self.sibling_is_left)
    }
}

/// The images of a sequence of proof steps.
pub open spec fn steps_view(s: Seq<ProofStep>) -> Seq<(Seq<u8>, bool)> {
    s.map_values(|p: ProofStep| p@)
}

/// The leaves still in the key's subtree after descending `d` levels along
/// the path.
pub open spec fn along_path(ls: Seq<LeafView>, path: Seq<u8>, d: int) -> Seq<LeafView>
    decreases d,
{
    if d <= 0 {
        ls
    } else {
        filter_bit(along_path(ls, path, d - 1), d - 1, key_bit(path, d - 1))
    }
}

/// The hash of the sibling subtree at depth `d` of the key's path.
pub open spec fn sibling_at(ls: Seq<LeafView>, path: Seq<u8>, d: int) -> Seq<u8> {
    subtree_hash(filter_bit(along_path(ls, path, d), d, !key_bit(path, d)), d + 1)
}

/// Folds an inclusion proof from the leaf hash back up to the root, outermost
/// step first.
pub open spec fn fold_proof(steps: Seq<(Seq<u8>, bool)>, leaf: Seq<u8>) -> Seq<u8>
    decreases steps.len(),
{
    if steps.len() == 0 {
        leaf
    } else {
        let below = fold_proof(steps.drop_first(), leaf);
        if steps[0].1 {
            node_hash_spec(steps[0].0, below)
        } else {
            node_hash_spec(below, steps[0].0)
        }
    }
}

impl SparseMerkleTreeI {
    /// Produces the 256 sibling hashes along `key`'s path, one per level from
    /// the root down, each flagged with the side the sibling stands on. The
    /// proof serves external inclusion verification and the binding
    /// certificate handed to the succinct-proof backend.
    pub fn get_proof(&self, key: &[u8]) -> (r: Vec<ProofStep>)
        requires
            self.wf(),
        ensures
            r@.len() == 256,
            forall|d: int|
                0 <= d < 256 ==> (#[trigger] r@[d])@ == (
                    sibling_at(self.leaves(), key_path(key@), d),
                    key_bit(key_path(key@), d),
                ),
    {
        let path = key_path_bytes(key);
        let ghost p = key_path(key@);
        let mut cur: Vec<SmtLeaf> = Vec::new();
        let mut i: usize = 0;
        while i < self.leaves.len()
            invariant
                i <= self.leaves@.len(),
                leaves_view(cur@) == leaves_view(self.leaves@).subrange(0, i as int),
            decreases self.leaves@.len() - i,
        {
            let ghost prev = cur@;
            cur.push(clone_leaf(&self.leaves[i]));
            proof {
                assert(leaves_view(cur@) =~= leaves_view(prev).push(self.leaves@[i as int]@));
                assert(leaves_view(self.leaves@).subrange(0, i + 1 as int) =~= leaves_view(
                    self.leaves@,
                ).subrange(0, i as int).push(leaves_view(self.leaves@)[i as int]));
            }
            i = i + 1;
        }
        proof {
            assert(leaves_view(self.leaves@).subrange(0, self.leaves@.len() as int) =~= self.leaves());
            assert(along_path(self.leaves(), p, 0) == self.leaves());
        }
        let mut steps: Vec<ProofStep> = Vec::new();
        let mut d: usize = 0;
        while d < 256
            invariant
                d <= 256,
                p == key_path(key@),
                path@ == p,
                leaves_view(cur@) == along_path(self.leaves(), p, d as int),
                steps@.len() == d,
                forall|j: int|
                    0 <= j < d ==> (#[trigger] steps@[j])@ == (
                        sibling_at(self.leaves(), p, j),
                        key_bit(p, j),
                    ),
            decreases 256 - d,
        {
            let bit = key_bit_exec(path.as_slice(), d);
            let (zeros, ones) = partition_by_bit(&cur, d);
            let (same, other) = if bit {
                (ones, zeros)
            } else {
                (zeros, ones)
            };
            let sibling = subtree_hash_exec(&other, d + 1);
            steps.push(ProofStep { sibling, sibling_is_left: bit });
            proof {
                assert(along_path(self.leaves(), p, d + 1 as int) == filter_bit(
                    along_path(self.leaves(), p, d as int),
                    d as int,
                    key_bit(p, d as int),
                ));
            }
            cur = same;
            d = d + 1;
        }
        steps
    }

    /// Recomputes the root certified by an inclusion proof for `key` holding
    /// `value`.
    pub fn compute_root_from_proof(key: &[u8], value: &[u8], steps: &Vec<ProofStep>) -> (r: [u8;
        32])
        requires
            steps@.len() == 256,
        ensures
            r@ == fold_proof(steps_view(steps@), leaf_hash_spec(key@, value@)),
    {
        let mut cur = leaf_hash(key, value);
        let mut d: usize = 256;
        while d > 0
            invariant
                d <= 256,
                steps@.len() == 256,
                cur@ == fold_proof(
                    steps_view(steps@).subrange(d as int, 256),
                    leaf_hash_spec(key@, value@),
                ),
            decreases d,
        {
            let step = &steps[d - 1];
            cur = if step.sibling_is_left {
                node_hash(&step.sibling, &cur)
            } else {
                node_hash(&cur, &step.sibling)
            };
            proof {
                let sv = steps_view(steps@);
                assert(sv.subrange(d - 1 as int, 256).drop_first() =~= sv.subrange(d as int, 256));
                assert(sv.subrange(d - 1 as int, 256)[0] == sv[d - 1 as int]);
            }
            d = d - 1;
        }
        proof {
            assert(steps_view(steps@).subrange(0, 256) =~= steps_view(steps@));
        }
        cur
    }
}

/// The 64-bit commitment a 32-byte hash contributes to the succinct-proof
/// circuit: its first eight bytes read as a little-endian word.
pub open spec fn field_commitment(h: Seq<u8>) -> u64
    recommends
        h.len() >= 8,
{
    vstd::bytes::spec_u64_from_le_bytes(h.subrange(0, 8))
}

/// Reads the field commitment out of a hash.
pub fn hash_to_field(h: &[u8; 32]) -> (r: u64)
    ensures
        r == field_commitment(h@),
{
    let s = h.as_slice();
    vstd::bytes::u64_from_le_bytes(&s[0..8])
}

/// The commitments recorded for one update, in circuit order: the key
/// commitment, the value commitment, the 256 sibling commitments from the
/// root down, and the root commitment.
///
/// The accumulator is ephemeral: it is built fresh per update and handed to
/// the external proof backend, never persisted beside the node map.
pub struct ConstraintAccumulator {
    pub commitments: Vec<u64>,
}

impl SparseMerkleTreeI {
    /// Builds the constraint accumulator for a membership proof of `value`
    /// under `key` against the current tree.
    pub fn constraint_accumulator(&self, key: &[u8], value: &[u8]) -> (r: ConstraintAccumulator)
        requires
            self.wf(),
        ensures
            r.commitments@.len() == 259,
            r.commitments@[0] == field_commitment(leaf_hash_spec(key@, Seq::empty())),
            r.commitments@[1] == field_commitment(leaf_hash_spec(key@, value@)),
            forall|d: int|
                0 <= d < 256 ==> r.commitments@[2 + d] == field_commitment(
                    sibling_at(self.leaves(), key_path(key@), d),
                ),
            r.commitments@[258] == field_commitment(self.root_view()),
    {
        let empty: Vec<u8> = Vec::new();
        let key_leaf = leaf_hash(key, empty.as_slice());
        let value_leaf = leaf_hash(key, value);
        let mut commitments: Vec<u64> = Vec::new();
        commitments.push(hash_to_field(&key_leaf));
        commitments.push(hash_to_field(&value_leaf));
        let steps = self.get_proof(key);
        let mut d: usize = 0;
        while d < 256
            invariant
                d <= 256,
                steps@.len() == 256,
                forall|j: int|
                    0 <= j < 256 ==> (#[trigger] steps@[j])@ == (
                        sibling_at(self.leaves(), key_path(key@), j),
                        key_bit(key_path(key@), j),
                    ),
                commitments@.len() == 2 + d,
                commitments@[0] == field_commitment(leaf_hash_spec(key@, Seq::empty())),
                commitments@[1] == field_commitment(leaf_hash_spec(key@, value@)),
                forall|j: int|
                    0 <= j < d ==> commitments@[2 + j] == field_commitment(
                        sibling_at(self.leaves(), key_path(key@), j),
                    ),
            decreases 256 - d,
        {
            commitments.push(hash_to_field(&steps[d].sibling));
            d = d + 1;
        }
        let root = self.root();
        commitments.push(hash_to_field(&root));
        ConstraintAccumulator { commitments }
    }
}

/// A materialised tree node, referenced by content hash rather than by
/// pointer: children are looked up by hash, never linked.
pub struct MerkleNode {
    /// Hash of the left child subtree, when one is populated.
    pub left: Option<[u8; 32]>,
    /// Hash of the right child subtree, when one is populated.
    pub right: Option<[u8; 32]>,
    /// This node's own hash.
    pub hash: [u8; 32],
    /// The committed value, for leaf nodes.
    pub value: Option<Vec<u8>>,
    /// True for a bottom-level node holding a value.
    pub is_leaf: bool,
    /// True when the subtree under this node holds no leaves.
    pub is_empty: bool,
}

impl SparseMerkleTreeI {
    /// Materialises the top node of the tree: its hash is the root, and its
    /// children are the hashes of the two half-populations.
    pub fn root_node(&self) -> (r: MerkleNode)
        requires
            self.wf(),
        ensures
            r.hash@ == self.root_view(),
            !r.is_leaf,
            r.value is None,
            r.is_empty == (self.leaves().len() == 0),
            r.is_empty ==> r.left is None && r.right is None,
            !r.is_empty ==> (r.left matches Some(l) && l@ == subtree_hash(
                filter_bit(self.leaves(), 0, false),
                1,
            )) && (r.right matches Some(rt) && rt@ == subtree_hash(
                filter_bit(self.leaves(), 0, true),
                1,
            )),
    {
        if self.leaves.len() == 0 {
            proof {
                assert(self.leaves().len() == 0);
            }
            MerkleNode {
                left: None,
                right: None,
                hash: self.root_hash,
                value: None,
                is_leaf: false,
                is_empty: true,
            }
        } else {
            let (zeros, ones) = partition_by_bit(&self.leaves, 0);
            let lh = subtree_hash_exec(&zeros, 1);
            let rh = subtree_hash_exec(&ones, 1);
            proof {
                assert(self.leaves().len() == self.leaves@.len());
            }
            MerkleNode {
                left: Some(lh),
                right: Some(rh),
                hash: self.root_hash,
                value: None,
                is_leaf: false,
                is_empty: false,
            }
        }
    }

    /// Serialises the tree state into a container: one root cell holding the
    /// root hash, then one cell per leaf holding its key and value.
    pub fn serialize_state(&self) -> (r: Result<Boc, SystemError>)
        requires
            self.wf(),
        ensures
            r is Ok,
            r matches Ok(b) ==> b.wf() && b.cells_view().len() == 1 + self.leaves().len()
                && b.cells_view()[0] == self.root_view() && (forall|i: int|
                0 <= i < self.leaves().len() ==> b.cells_view()[i + 1] == #[trigger] self.leaves()[i].key
                    + self.leaves()[i].value) && b.roots_view() == seq![0usize],
    {
        let mut boc = Boc::new();
        let root_cell = boc.add_cell(copy_bytes(self.root_hash.as_slice()));
        let mut i: usize = 0;
        while i < self.leaves.len()
            invariant
                i <= self.leaves@.len(),
                boc.wf(),
                boc.cells_view().len() == 1 + i,
                boc.cells_view()[0] == self.root_view(),
                boc.roots_view() == Seq::<usize>::empty(),
                forall|j: int|
                    0 <= j < i ==> boc.cells_view()[j + 1] == #[trigger] self.leaves()[j].key
                        + self.leaves()[j].value,
            decreases self.leaves@.len() - i,
        {
            let l = &self.leaves[i];
            let mut data = copy_bytes(l.key.as_slice());
            crate::util::extend_from_slice(&mut data, l.value.as_slice());
            let _ = boc.add_cell(data);
            proof {
                assert(self.leaves()[i as int] == self.leaves@[i as int]@);
            }
            i = i + 1;
        }
        match boc.add_root(root_cell) {
            Ok(()) => {},
            Err(e) => {
                return Err(e);
            },
        }
        proof {
            assert(boc.roots_view() =~= seq![0usize]);
        }
        Ok(boc)
    }
}

/// Implemented by managers that fold an incoming state object into the
/// per-contract intermediate trees and the per-contract root trees.
pub trait IntermediateTreeManagerTrait {
    fn update_trees(
        &mut self,
        boc: &Boc,
        intermediate_trees: &mut Vec<([u8; 32], SparseMerkleTreeI)>,
        root_trees: &mut Vec<([u8; 32], SparseMerkleTreeI)>,
    ) -> Result<(), SystemError>;
}

/// The 256 proof steps of the tree `ls` along `path`: each level's sibling
/// hash and side.
pub open spec fn tree_proof(ls: Seq<LeafView>, path: Seq<u8>) -> Seq<(Seq<u8>, bool)> {
    Seq::new(256, |d: int| (sibling_at(ls, path, d), key_bit(path, d)))
}

/// Every element of a filtered sequence is an element of the sequence it
/// was filtered from.
proof fn lemma_filter_elems<A>(s: Seq<A>, pred: spec_fn(A) -> bool)
    ensures
        forall|i: int|
            0 <= i < s.filter(pred).len() ==> s.contains(#[trigger] s.filter(pred)[i]),
    decreases s.len(),
{
    reveal(Seq::filter);
    if s.len() == 0 {
    } else {
        let dl = s.drop_last();
        lemma_filter_elems(dl, pred);
        let out = s.filter(pred);
        let sub = dl.filter(pred);
        assert forall|i: int| 0 <= i < out.len() implies s.contains(#[trigger] out[i]) by {
            if pred(s.last()) && i == out.len() - 1 {
                assert(out[i] == s.last());
                assert(s[s.len() - 1] == s.last());
            } else {
                assert(out[i] == sub[i]);
                assert(dl.contains(sub[i]));
                let j = choose|j: int| 0 <= j < dl.len() && dl[j] == sub[i];
                assert(s[j] == sub[i]);
            }
        }
    }
}

/// Filters commute.
proof fn lemma_filter_comm<A>(s: Seq<A>, p1: spec_fn(A) -> bool, p2: spec_fn(A) -> bool)
    ensures
        s.filter(p1).filter(p2) == s.filter(p2).filter(p1),
    decreases s.len(),
{
    reveal(Seq::filter);
    if s.len() == 0 {
        assert(s.filter(p1).filter(p2) =~= s.filter(p2).filter(p1));
    } else {
        let dl = s.drop_last();
        let x = s.last();
        lemma_filter_comm(dl, p1, p2);
        if p1(x) {
            lemma_filter_push(dl.filter(p1), x, p2);
        }
        if p2(x) {
            lemma_filter_push(dl.filter(p2), x, p1);
        }
    }
}

/// Two bytes that agree on all eight bits are equal.
proof fn lemma_byte_from_bits(x: u8, y: u8)
    requires
        forall|j: int| 0 <= j < 8 ==> byte_bit(x, j) == byte_bit(y, j),
    ensures
        x == y,
{
    assert(byte_bit(x, 0) == byte_bit(y, 0));
    assert(byte_bit(x, 1) == byte_bit(y, 1));
    assert(byte_bit(x, 2) == byte_bit(y, 2));
    assert(byte_bit(x, 3) == byte_bit(y, 3));
    assert(byte_bit(x, 4) == byte_bit(y, 4));
    assert(byte_bit(x, 5) == byte_bit(y, 5));
    assert(byte_bit(x, 6) == byte_bit(y, 6));
    assert(byte_bit(x, 7) == byte_bit(y, 7));
    assert(x == y) by (bit_vector)
        requires
            (((x >> 7u8) & 1u8) == 1u8) == (((y >> 7u8) & 1u8) == 1u8),
            (((x >> 6u8) & 1u8) == 1u8) == (((y >> 6u8) & 1u8) == 1u8),
            (((x >> 5u8) & 1u8) == 1u8) == (((y >> 5u8) & 1u8) == 1u8),
            (((x >> 4u8) & 1u8) == 1u8) == (((y >> 4u8) & 1u8) == 1u8),
            (((x >> 3u8) & 1u8) == 1u8) == (((y >> 3u8) & 1u8) == 1u8),
            (((x >> 2u8) & 1u8) == 1u8) == (((y >> 2u8) & 1u8) == 1u8),
            (((x >> 1u8) & 1u8) == 1u8) == (((y >> 1u8) & 1u8) == 1u8),
            (((x >> 0u8) & 1u8) == 1u8) == (((y >> 0u8) & 1u8) == 1u8),
    ;
}

/// Two 32-byte paths that agree on all 256 bits are equal.
proof fn lemma_path_from_bits(x: Seq<u8>, y: Seq<u8>)
    requires
        x.len() == 32,
        y.len() == 32,
        forall|i: int| 0 <= i < 256 ==> key_bit(x, i) == key_bit(y, i),
    ensures
        x == y,
{
    assert forall|b: int| 0 <= b < 32 implies x[b] == y[b] by {
        assert forall|j: int| 0 <= j < 8 implies byte_bit(x[b], j) == byte_bit(y[b], j) by {
            let i = 8 * b + j;
            assert(0 <= i < 256);
            assert(i / 8 == b && i % 8 == j);
            assert(key_bit(x, i) == key_bit(y, i));
        }
        lemma_byte_from_bits(x[b], y[b]);
    }
    assert(x =~= y);
}

/// The root reached from `ls` when descending along `p`: the fold of the
/// sibling hashes around a fresh leaf hash, written as a recursion over the
/// depth.
spec fn fold_steps(ls: Seq<LeafView>, p: Seq<u8>, d: int, leaf: Seq<u8>) -> Seq<u8>
    decreases 256 - d,
{
    if d < 0 || d >= 256 {
        leaf
    } else {
        let pb = key_bit(p, d);
        let sib = subtree_hash(filter_bit(ls, d, !pb), d + 1);
        let below = fold_steps(filter_bit(ls, d, pb), p, d + 1, leaf);
        if pb {
            node_hash_spec(sib, below)
        } else {
            node_hash_spec(below, sib)
        }
    }
}

/// Replacing the leaf on path `p` with a fresh one and recomputing the
/// subtree equals folding the fresh leaf hash up through the old siblings.
proof fn lemma_insert_fold(ls: Seq<LeafView>, p: Seq<u8>, k: Seq<u8>, v: Seq<u8>, d: int)
    requires
        p.len() == 32,
        0 <= d <= 256,
        forall|t: int| 0 <= t < ls.len() ==> (#[trigger] ls[t]).path.len() == 32,
        forall|t: int, i: int|
            0 <= t < ls.len() && 0 <= i < d ==> #[trigger] key_bit(ls[t].path, i) == key_bit(p, i),
    ensures
        subtree_hash(remove_path(ls, p).push(LeafView { path: p, key: k, value: v }), d)
            == fold_steps(ls, p, d, leaf_hash_spec(k, v)),
    decreases 256 - d,
{
    let nl = LeafView { path: p, key: k, value: v };
    let ins = remove_path(ls, p).push(nl);
    let path_ne = |l: LeafView| l.path != p;
    lemma_filter_elems(ls, path_ne);
    if d == 256 {
        assert forall|t: int| 0 <= t < ls.len() implies !path_ne(#[trigger] ls[t]) by {
            assert forall|i: int| 0 <= i < 256 implies key_bit(ls[t].path, i) == key_bit(
                p,
                i,
            ) by {}
            lemma_path_from_bits(ls[t].path, p);
        }
        assert(remove_path(ls, p) =~= Seq::<LeafView>::empty()) by {
            if ls.filter(path_ne).len() > 0 {
                ls.lemma_filter_pred(path_ne, 0);
                let e = ls.filter(path_ne)[0];
                assert(ls.contains(e));
                let j = choose|j: int| 0 <= j < ls.len() && ls[j] == e;
                assert(!path_ne(ls[j]));
                assert(false);
            }
        }
        assert(ins =~= seq![nl]);
        assert(subtree_hash(ins, 256) == leaf_hash_spec(k, v));
    } else {
        let pb = key_bit(p, d);
        let same_pred = |l: LeafView| key_bit(l.path, d) == pb;
        let other_pred = |l: LeafView| key_bit(l.path, d) == !pb;
        let same = filter_bit(ls, d, pb);
        let other = filter_bit(ls, d, !pb);
        // split the inserted population at this level
        lemma_filter_push(remove_path(ls, p), nl, same_pred);
        lemma_filter_push(remove_path(ls, p), nl, other_pred);
        lemma_filter_comm(ls, path_ne, same_pred);
        lemma_filter_comm(ls, path_ne, other_pred);
        // the other side holds no leaf on path `p`, so removal is a no-op
        lemma_filter_elems(ls, other_pred);
        assert forall|t: int| 0 <= t < other.len() implies path_ne(#[trigger] other[t]) by {
            ls.lemma_filter_pred(other_pred, t);
            if other[t].path == p {
                assert(key_bit(other[t].path, d) == pb);
            }
        }
        lemma_filter_all(other, path_ne);
        assert(filter_bit(ins, d, !pb) == other);
        assert(filter_bit(ins, d, pb) == remove_path(same, p).push(nl));
        // the same side satisfies the induction hypotheses one level down
        lemma_filter_elems(ls, same_pred);
        assert forall|t: int| 0 <= t < same.len() implies (#[trigger] same[t]).path.len() == 32
            && (forall|i: int|
            0 <= i < d + 1 ==> #[trigger] key_bit(same[t].path, i) == key_bit(p, i)) by {
            ls.lemma_filter_pred(same_pred, t);
            assert(ls.contains(same[t]));
            let j = choose|j: int| 0 <= j < ls.len() && ls[j] == same[t];
            assert(ls[j].path.len() == 32);
            assert forall|i: int| 0 <= i < d + 1 implies #[trigger] key_bit(same[t].path, i)
                == key_bit(p, i) by {
                if i < d {
                    assert(key_bit(ls[j].path, i) == key_bit(p, i));
                } else {
                    assert(key_bit(same[t].path, d) == pb);
                }
            }
        }
        lemma_insert_fold(same, p, k, v, d + 1);
        assert(ins.len() > 0);
        assert(subtree_hash(ins, d) == node_hash_spec(
            subtree_hash(filter_bit(ins, d, false), d + 1),
            subtree_hash(filter_bit(ins, d, true), d + 1),
        ));
        if pb {
            assert(filter_bit(ins, d, true) == remove_path(same, p).push(nl));
            assert(filter_bit(ins, d, false) == other);
        } else {
            assert(filter_bit(ins, d, false) == remove_path(same, p).push(nl));
            assert(filter_bit(ins, d, true) == other);
        }
    }
}

/// Folding the listed proof steps from depth `d` equals the recursion over
/// the remaining population.
proof fn lemma_fold_steps_matches_proof(ls: Seq<LeafView>, p: Seq<u8>, leaf: Seq<u8>, d: int)
    requires
        0 <= d <= 256,
    ensures
        fold_proof(tree_proof(ls, p).subrange(d, 256), leaf) == fold_steps(
            along_path(ls, p, d),
            p,
            d,
            leaf,
        ),
    decreases 256 - d,
{
    let steps = tree_proof(ls, p);
    if d == 256 {
        assert(steps.subrange(256, 256) =~= Seq::<(Seq<u8>, bool)>::empty());
    } else {
        let sub = steps.subrange(d, 256);
        assert(sub[0] == steps[d]);
        assert(sub.drop_first() =~= steps.subrange(d + 1, 256));
        lemma_fold_steps_matches_proof(ls, p, leaf, d + 1);
        assert(along_path(ls, p, d + 1) == filter_bit(along_path(ls, p, d), d, key_bit(p, d)));
    }
}

/// Law: an inclusion proof certifies the update that produced it. Folding the
/// tree's proof for a key with a fresh leaf's hash yields exactly the root
/// the tree commits to after updating that key with the fresh value.
pub proof fn lemma_proof_certifies_update(ls: Seq<LeafView>, k: Seq<u8>, v: Seq<u8>)
    requires
        forall|t: int| 0 <= t < ls.len() ==> (#[trigger] ls[t]).path == key_path(ls[t].key),
    ensures
        fold_proof(tree_proof(ls, key_path(k)), leaf_hash_spec(k, v)) == root_spec(
            spec_insert(ls, k, v),
        ),
{
    let p = key_path(k);
    let leaf = leaf_hash_spec(k, v);
    assert forall|t: int| 0 <= t < ls.len() implies (#[trigger] ls[t]).path.len() == 32 by {
        assert(ls[t].path == key_path(ls[t].key));
    }
    lemma_insert_fold(ls, p, k, v, 0);
    lemma_fold_steps_matches_proof(ls, p, leaf, 0);
    assert(tree_proof(ls, p).subrange(0, 256) =~= tree_proof(ls, p));
    assert(along_path(ls, p, 0) == ls);
}

/// The leaf population reached by applying a sequence of updates, oldest
/// first, to an empty tree.
pub open spec fn apply_updates(us: Seq<(Seq<u8>, Seq<u8>)>) -> Seq<LeafView>
    decreases us.len(),
{
    if us.len() == 0 {
        Seq::empty()
    } else {
        spec_insert(apply_updates(us.drop_last()), us.last().0, us.last().1)
    }
}

/// Law: updating twice with identical key and value leaves the leaf
/// population, and therefore the root, exactly as one update leaves them.
pub proof fn lemma_update_idempotent(ls: Seq<LeafView>, key: Seq<u8>, value: Seq<u8>)
    ensures
        spec_insert(spec_insert(ls, key, value), key, value) == spec_insert(ls, key, value),
        root_spec(spec_insert(spec_insert(ls, key, value), key, value)) == root_spec(
            spec_insert(ls, key, value),
        ),
{
    let p = key_path(key);
    let nl = LeafView { path: p, key: key, value: value };
    let pred = |lv: LeafView| lv.path != p;
    let once = spec_insert(ls, key, value);
    lemma_filter_push(ls.filter(pred), nl, pred);
    assert(remove_path(once, p) == ls.filter(pred).filter(pred));
    assert forall|i: int| 0 <= i < ls.filter(pred).len() implies pred(
        #[trigger] ls.filter(pred)[i],
    ) by {
        ls.lemma_filter_pred(pred, i);
    }
    lemma_filter_all(ls.filter(pred), pred);
    assert(spec_insert(once, key, value) == once);
}

/// Law: the root is determined by the sequence of updates applied, and by
/// nothing else; two trees that applied the same updates commit to the same
/// root.
pub proof fn lemma_root_deterministic(
    us: Seq<(Seq<u8>, Seq<u8>)>,
    l1: Seq<LeafView>,
    l2: Seq<LeafView>,
)
    requires
        l1 == apply_updates(us),
        l2 == apply_updates(us),
    ensures
        root_spec(l1) == root_spec(l2),
{
}

} // verus!
