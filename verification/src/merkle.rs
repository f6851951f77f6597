//! Append-only commitment (Merkle) tree and incremental witnesses.
//!
//! The tree has a fixed depth; leaves are coin commitments, appended
//! left to right. Internal hashes are cached, so the root is read in
//! constant time and each append recomputes only the path that changed.
//! A witness snapshots the tree right after its leaf was appended and is
//! fed every later append, so its authentication path always re-derives
//! the root of the tree state it is synchronized with.

use vstd::prelude::*;
use crate::hash::{blake2s_ps, blake2s32};
use crate::bytes::clone_bytes;
use crate::Error;

verus! {

/// Depth of the commitment tree: capacity is `two_pow(TREE_DEPTH)` leaves.
pub const TREE_DEPTH: usize = 32;

/// Number of leaves of a full tree, `two_pow(32)`.
pub const TREE_CAPACITY: u64 = 0x1_0000_0000;

/// Two to the power `e`.
pub open spec fn two_pow(e: nat) -> nat
    decreases e,
{
    if e == 0 {
        1
    } else {
        2 * two_pow((e - 1) as nat)
    }
}

pub proof fn lemma_two_pow_pos(e: nat)
    ensures
        two_pow(e) >= 1,
    decreases e,
{
    if e > 0 {
        lemma_two_pow_pos((e - 1) as nat);
    }
}

pub proof fn lemma_two_pow_values()
    ensures
        two_pow(31) == 0x8000_0000,
        two_pow(32) == 0x1_0000_0000,
{
    reveal_with_fuel(two_pow, 33);
}

pub proof fn lemma_two_pow_monotone(a: nat, b: nat)
    requires
        a <= b,
    ensures
        two_pow(a) <= two_pow(b),
    decreases b,
{
    if a < b {
        lemma_two_pow_monotone(a, (b - 1) as nat);
        lemma_two_pow_pos((b - 1) as nat);
    }
}

/// Personalization of the node-combination domain.
pub open spec fn merkle_persona() -> Seq<u8> {
    seq![68u8, 114u8, 107u8, 77u8, 114u8, 107u8, 108u8, 78u8]
}

fn merkle_persona_exec() -> (r: Vec<u8>)
    ensures
        r@ == merkle_persona(),
{
    let mut r: Vec<u8> = Vec::new();
    r.push(68u8);
    r.push(114u8);
    r.push(107u8);
    r.push(77u8);
    r.push(114u8);
    r.push(107u8);
    r.push(108u8);
    r.push(78u8);
    proof {
        assert(r@ =~= merkle_persona());
    }
    r
}

/// The empty leaf value: 32 zero bytes.
pub open spec fn zero_leaf() -> Seq<u8> {
    Seq::new(32, |i: int| 0u8)
}

/// Domain-separated two-to-one compression of two child hashes at a level.
pub open spec fn node_combine(level: int, l: Seq<u8>, r: Seq<u8>) -> Seq<u8> {
    blake2s_ps(merkle_persona(), seq![level as u8] + l + r)
}

/// Root of the all-empty subtree of height `h`.
pub open spec fn empty_root(h: nat) -> Seq<u8>
    decreases h,
{
    if h == 0 {
        zero_leaf()
    } else {
        node_combine(h - 1, empty_root((h - 1) as nat), empty_root((h - 1) as nat))
    }
}

/// Root of the height-`h` subtree whose first `lv.len()` leaves are `lv`
/// and whose remaining leaves are empty.
pub open spec fn root_spec(h: nat, lv: Seq<Seq<u8>>) -> Seq<u8>
    decreases h,
{
    if h == 0 {
        if lv.len() == 0 {
            zero_leaf()
        } else {
            lv[0]
        }
    } else {
        let half = two_pow((h - 1) as nat) as int;
        if lv.len() <= half {
            node_combine(h - 1, root_spec((h - 1) as nat, lv), empty_root((h - 1) as nat))
        } else {
            node_combine(
                h - 1,
                root_spec((h - 1) as nat, lv.take(half)),
                root_spec((h - 1) as nat, lv.skip(half)),
            )
        }
    }
}

pub proof fn lemma_root_spec_empty(h: nat)
    ensures
        root_spec(h, Seq::<Seq<u8>>::empty()) == empty_root(h),
    decreases h,
{
    if h > 0 {
        lemma_root_spec_empty((h - 1) as nat);
        lemma_two_pow_pos((h - 1) as nat);
    }
}

/// Splitting a level: the root over `sl + sr` combines the roots of the
/// two halves, provided `sl` fills the left half whenever `sr` is not empty.
pub proof fn lemma_root_spec_split(h: nat, sl: Seq<Seq<u8>>, sr: Seq<Seq<u8>>)
    requires
        h >= 1,
        sl.len() <= two_pow((h - 1) as nat),
        sr.len() > 0 ==> sl.len() == two_pow((h - 1) as nat),
    ensures
        root_spec(h, sl + sr) == node_combine(
            h - 1,
            root_spec((h - 1) as nat, sl),
            root_spec((h - 1) as nat, sr),
        ),
{
    let half = two_pow((h - 1) as nat) as int;
    let l = sl + sr;
    if sr.len() == 0 {
        assert(l =~= sl);
        assert(sr =~= Seq::<Seq<u8>>::empty());
        lemma_root_spec_empty((h - 1) as nat);
    } else {
        assert(l.len() > half);
        assert(l.take(half) =~= sl);
        assert(l.skip(half) =~= sr);
    }
}

/// A subtree with cached hashes. `Empty` stands for a subtree with no
/// filled leaves at any height; a `Leaf` is a filled bottom cell.
enum Subtree {
    Empty,
    Leaf { hash: Vec<u8> },
    Node { hash: Vec<u8>, count: u64, left: Box<Subtree>, right: Box<Subtree> },
}

/// The filled leaves of a subtree, left to right.
spec fn sub_leaves(t: Subtree) -> Seq<Seq<u8>>
    decreases t,
{
    match t {
        Subtree::Empty => Seq::empty(),
        Subtree::Leaf { hash } => seq![hash@],
        Subtree::Node { left, right, .. } => sub_leaves(*left) + sub_leaves(*right),
    }
}

/// Well-formedness of a subtree at height `h`: heights are consistent,
/// leaves fill left to right, counts match, and every cached hash is the
/// root of its subtree's leaves.
spec fn sub_wf(t: Subtree, h: nat) -> bool
    decreases t,
{
    match t {
        Subtree::Empty => true,
        Subtree::Leaf { hash } => h == 0 && hash@.len() == 32,
        Subtree::Node { hash, count, left, right } => {
            &&& h >= 1
            &&& sub_wf(*left, (h - 1) as nat)
            &&& sub_wf(*right, (h - 1) as nat)
            &&& sub_leaves(*left).len() <= two_pow((h - 1) as nat)
            &&& sub_leaves(*right).len() <= two_pow((h - 1) as nat)
            &&& (sub_leaves(*right).len() > 0 ==> sub_leaves(*left).len() == two_pow(
                (h - 1) as nat,
            ))
            &&& count == sub_leaves(*left).len() + sub_leaves(*right).len()
            &&& hash@.len() == 32
            &&& hash@ == root_spec(h, sub_leaves(*left) + sub_leaves(*right))
        },
    }
}

proof fn lemma_sub_leaves_bound(t: Subtree, h: nat)
    requires
        sub_wf(t, h),
    ensures
        sub_leaves(t).len() <= two_pow(h),
    decreases t,
{
    match t {
        Subtree::Empty => {
            lemma_two_pow_pos(h);
        },
        Subtree::Leaf { .. } => {
            lemma_two_pow_pos(h);
        },
        Subtree::Node { left, right, .. } => {
        },
    }
}

/// Table of empty-subtree roots: entry `i` is `empty_root(i)`.
spec fn empties_wf(e: Seq<Vec<u8>>) -> bool {
    &&& e.len() == TREE_DEPTH + 1
    &&& forall|i: int| 0 <= i <= TREE_DEPTH ==> (#[trigger] e[i])@ == empty_root(i as nat)
    &&& forall|i: int| 0 <= i <= TREE_DEPTH ==> (#[trigger] e[i])@.len() == 32
}

/// Combines two 32-byte child hashes at a level.
fn combine(level: u8, l: &Vec<u8>, r: &Vec<u8>) -> (res: Vec<u8>)
    requires
        l@.len() == 32,
        r@.len() == 32,
    ensures
        res@ == node_combine(level as int, l@, r@),
        res@.len() == 32,
{
    let persona = merkle_persona_exec();
    let mut data: Vec<u8> = Vec::new();
    data.push(level);
    crate::bytes::push_bytes(&mut data, l);
    crate::bytes::push_bytes(&mut data, r);
    proof {
        assert(data@ =~= seq![level] + l@ + r@);
    }
    blake2s32(&persona, &data)
}

/// The cached root of a subtree at height `h`.
fn subtree_hash(t: &Subtree, h: usize, empties: &Vec<Vec<u8>>) -> (r: Vec<u8>)
    requires
        sub_wf(*t, h as nat),
        h <= TREE_DEPTH,
        empties_wf(empties@),
    ensures
        r@ == root_spec(h as nat, sub_leaves(*t)),
        r@.len() == 32,
{
    match t {
        Subtree::Empty => {
            proof {
                lemma_root_spec_empty(h as nat);
            }
            clone_bytes(&empties[h])
        },
        Subtree::Leaf { hash } => clone_bytes(hash),
        Subtree::Node { hash, .. } => clone_bytes(hash),
    }
}

/// Leaf count of a subtree, read from the cache.
fn subtree_count(t: &Subtree, h: usize) -> (r: u64)
    requires
        sub_wf(*t, h as nat),
        h <= TREE_DEPTH,
    ensures
        r == sub_leaves(*t).len(),
{
    proof {
        lemma_sub_leaves_bound(*t, h as nat);
        lemma_two_pow_monotone(h as nat, 32);
        lemma_two_pow_values();
    }
    match t {
        Subtree::Empty => 0,
        Subtree::Leaf { .. } => 1,
        Subtree::Node { count, .. } => *count,
    }
}

/// Two to the power `e`, for exponents up to the tree depth.
fn pow2_u64(e: usize) -> (r: u64)
    requires
        e <= 32,
    ensures
        r == two_pow(e as nat),
{
    let mut r: u64 = 1;
    let mut i: usize = 0;
    while i < e
        invariant
            i <= e <= 32,
            r == two_pow(i as nat),
        decreases e - i,
    {
        proof {
            lemma_two_pow_monotone(i as nat, 31);
            lemma_two_pow_values();
        }
        r = r * 2;
        i += 1;
    }
    r
}

/// Appends a leaf to a non-full subtree, rebuilding the changed path.
fn subtree_append(t: Subtree, h: usize, leaf: &Vec<u8>, empties: &Vec<Vec<u8>>) -> (r: Subtree)
    requires
        sub_wf(t, h as nat),
        h <= TREE_DEPTH,
        leaf@.len() == 32,
        empties_wf(empties@),
        sub_leaves(t).len() < two_pow(h as nat),
    ensures
        sub_wf(r, h as nat),
        sub_leaves(r) == sub_leaves(t).push(leaf@),
    decreases h,
{
    match t {
        Subtree::Empty => {
            if h == 0 {
                let r = Subtree::Leaf { hash: clone_bytes(leaf) };
                proof {
                    assert(sub_leaves(r) =~= sub_leaves(Subtree::Empty).push(leaf@));
                }
                r
            } else {
                let newl = subtree_append(Subtree::Empty, h - 1, leaf, empties);
                let lhash = subtree_hash(&newl, h - 1, empties);
                let rhash = clone_bytes(&empties[h - 1]);
                let hash = combine((h - 1) as u8, &lhash, &rhash);
                proof {
                    lemma_two_pow_pos((h - 1) as nat);
                    lemma_root_spec_empty((h - 1) as nat);
                    assert(sub_wf(Subtree::Empty, (h - 1) as nat));
                    assert(sub_leaves(Subtree::Empty) =~= Seq::<Seq<u8>>::empty());
                    lemma_root_spec_split(
                        h as nat,
                        sub_leaves(newl),
                        Seq::<Seq<u8>>::empty(),
                    );
                    assert(sub_leaves(newl) + Seq::<Seq<u8>>::empty() =~= sub_leaves(newl));
                }
                let r = Subtree::Node {
                    hash,
                    count: 1,
                    left: Box::new(newl),
                    right: Box::new(Subtree::Empty),
                };
                proof {
                    assert(sub_leaves(r) =~= sub_leaves(Subtree::Empty).push(leaf@));
                }
                r
            }
        },
        Subtree::Leaf { .. } => {
            proof {
                assert(false);
            }
            vstd::pervasive::unreached()
        },
        Subtree::Node { hash: _, count, left, right } => {
            let ghost old_l = sub_leaves(*left);
            let ghost old_r = sub_leaves(*right);
            let lcount = subtree_count(&left, h - 1);
            let cap = pow2_u64(h - 1);
            proof {
                lemma_sub_leaves_bound(*left, (h - 1) as nat);
                lemma_sub_leaves_bound(*right, (h - 1) as nat);
                lemma_two_pow_monotone(h as nat, 32);
                lemma_two_pow_values();
            }
            if lcount < cap {
                // The right half is still untouched: leaves fill left first.
                proof {
                    assert(old_r.len() == 0);
                    assert(old_r =~= Seq::<Seq<u8>>::empty());
                }
                let newl = subtree_append(*left, h - 1, leaf, empties);
                let lhash = subtree_hash(&newl, h - 1, empties);
                let rhash = subtree_hash(&right, h - 1, empties);
                let hash = combine((h - 1) as u8, &lhash, &rhash);
                let r = Subtree::Node {
                    hash,
                    count: count + 1,
                    left: Box::new(newl),
                    right,
                };
                proof {
                    lemma_root_spec_split(h as nat, old_l.push(leaf@), old_r);
                    assert(old_l.push(leaf@) + old_r =~= old_l.push(leaf@));
                    assert(sub_leaves(r) =~= (old_l + old_r).push(leaf@));
                }
                r
            } else {
                proof {
                    assert(old_l.len() == cap);
                    assert(old_r.len() < cap);
                }
                let newr = subtree_append(*right, h - 1, leaf, empties);
                let lhash = subtree_hash(&left, h - 1, empties);
                let rhash = subtree_hash(&newr, h - 1, empties);
                let hash = combine((h - 1) as u8, &lhash, &rhash);
                let r = Subtree::Node {
                    hash,
                    count: count + 1,
                    left,
                    right: Box::new(newr),
                };
                proof {
                    lemma_root_spec_split(h as nat, old_l, old_r.push(leaf@));
                    assert(sub_leaves(r) =~= (old_l + old_r).push(leaf@));
                }
                r
            }
        },
    }
}

/// A 32-byte node value: a coin commitment at a leaf, or an inner hash.
#[derive(Clone, Debug)]
pub struct MerkleNode {
    repr: Vec<u8>,
}

impl MerkleNode {
    /// The bytes of the node.
    pub closed spec fn value(&self) -> Seq<u8> {
        self.repr@
    }

    pub open spec fn wf(&self) -> bool {
        self.value().len() == 32
    }

    /// Wraps 32 bytes as a node; refuses any other length.
    pub fn new(repr: Vec<u8>) -> (r: Option<MerkleNode>)
        ensures
            match r {
                Some(n) => n.wf() && n.value() == repr@,
                None => repr@.len() != 32,
            },
    {
        if repr.len() == 32 {
            Some(MerkleNode { repr })
        } else {
            None
        }
    }

    /// The bytes of the node, for callers outside the library.
    pub fn to_bytes(&self) -> (r: Vec<u8>)
        ensures
            r@ == self.value(),
    {
        clone_bytes(&self.repr)
    }
}

/// The append-only commitment tree.
pub struct CommitmentTree {
    root: Subtree,
    empties: Vec<Vec<u8>>,
    size: u64,
}

impl CommitmentTree {
    /// The sequence of appended leaves, oldest first.
    pub closed spec fn leaves(&self) -> Seq<Seq<u8>> {
        sub_leaves(self.root)
    }

    pub closed spec fn wf(&self) -> bool {
        &&& sub_wf(self.root, TREE_DEPTH as nat)
        &&& empties_wf(self.empties@)
        &&& self.size == self.leaves().len()
    }

    /// The root over the current leaves.
    pub open spec fn spec_root(&self) -> Seq<u8> {
        root_spec(TREE_DEPTH as nat, self.leaves())
    }

    /// The empty tree.
    pub fn empty() -> (t: CommitmentTree)
        ensures
            t.wf(),
            t.leaves() == Seq::<Seq<u8>>::empty(),
    {
        let mut empties: Vec<Vec<u8>> = Vec::new();
        let mut zero: Vec<u8> = Vec::new();
        let mut i: usize = 0;
        while i < 32
            invariant
                i <= 32,
                zero@ == zero_leaf().take(i as int),
            decreases 32 - i,
        {
            zero.push(0u8);
            proof {
                assert(zero_leaf().take(i as int).push(0u8) =~= zero_leaf().take(i + 1));
            }
            i += 1;
        }
        proof {
            assert(zero_leaf().take(32) =~= zero_leaf());
        }
        empties.push(zero);
        let mut l: usize = 1;
        while l <= TREE_DEPTH
            invariant
                1 <= l <= TREE_DEPTH + 1,
                empties@.len() == l,
                forall|i: int| 0 <= i < l ==> (#[trigger] empties@[i])@ == empty_root(i as nat),
                forall|i: int| 0 <= i < l ==> (#[trigger] empties@[i])@.len() == 32,
            decreases TREE_DEPTH + 1 - l,
        {
            let h = combine((l - 1) as u8, &empties[l - 1], &empties[l - 1]);
            empties.push(h);
            l += 1;
        }
        let t = CommitmentTree { root: Subtree::Empty, empties, size: 0 };
        proof {
            assert(t.leaves() =~= Seq::<Seq<u8>>::empty());
        }
        t
    }

    /// Appends a coin commitment at the next free position; fails exactly
    /// when the tree already holds its full capacity of leaves.
    pub fn append(&mut self, node: &MerkleNode) -> (r: Result<(), Error>)
        requires
            old(self).wf(),
            node.wf(),
        ensures
            final(self).wf(),
            match r {
                Ok(()) => old(self).leaves().len() < two_pow(TREE_DEPTH as nat)
                    && final(self).leaves() == old(self).leaves().push(node.value()),
                Err(e) => e == Error::TreeCapacityExceeded
                    && old(self).leaves().len() == two_pow(TREE_DEPTH as nat)
                    && final(self).leaves() == old(self).leaves(),
            },
    {
        proof {
            lemma_two_pow_values();
        }
        if self.size == TREE_CAPACITY {
            return Err(Error::TreeCapacityExceeded);
        }
        let mut t = Subtree::Empty;
        core::mem::swap(&mut self.root, &mut t);
        let newt = subtree_append(t, TREE_DEPTH, &node.repr, &self.empties);
        self.root = newt;
        self.size = self.size + 1;
        Ok(())
    }

    /// The tree never holds more than its capacity of leaves.
    pub proof fn lemma_len_bound(&self)
        requires
            self.wf(),
        ensures
            self.leaves().len() <= two_pow(TREE_DEPTH as nat),
    {
        lemma_sub_leaves_bound(self.root, TREE_DEPTH as nat);
    }

    /// The number of leaves appended so far.
    pub fn len(&self) -> (r: u64)
        requires
            self.wf(),
        ensures
            r == self.leaves().len(),
    {
        self.size
    }

    /// The current root; read from the cache, never recomputed in full.
    pub fn root(&self) -> (r: MerkleNode)
        requires
            self.wf(),
        ensures
            r.wf(),
            r.value() == self.spec_root(),
    {
        MerkleNode { repr: subtree_hash(&self.root, TREE_DEPTH, &self.empties) }
    }

    /// Replay determinism: the root is a function of the leaf sequence
    /// alone, so rebuilding a tree from the same leaves in the same order
    /// gives the same root.
    pub proof fn lemma_root_deterministic(a: &CommitmentTree, b: &CommitmentTree)
        requires
            a.leaves() == b.leaves(),
        ensures
            a.spec_root() == b.spec_root(),
    {
    }
}


/// The element views of a vector of byte vectors.
pub open spec fn seqs_of(v: Seq<Vec<u8>>) -> Seq<Seq<u8>> {
    v.map_values(|x: Vec<u8>| x@)
}

/// Walking an authentication path from a leaf back to a root: `sibs` holds
/// the sibling hashes top-down, `pos` the leaf position inside the
/// height-`h` subtree.
pub open spec fn path_root(h: nat, leaf: Seq<u8>, pos: int, sibs: Seq<Seq<u8>>) -> Seq<u8>
    decreases h,
{
    if h == 0 {
        leaf
    } else {
        let half = two_pow((h - 1) as nat) as int;
        if pos < half {
            node_combine(h - 1, path_root((h - 1) as nat, leaf, pos, sibs.skip(1)), sibs[0])
        } else {
            node_combine(h - 1, sibs[0], path_root((h - 1) as nat, leaf, pos - half, sibs.skip(1)))
        }
    }
}

/// Collects the sibling hashes along the path to `pos`, top-down.
fn subtree_path(t: &Subtree, h: usize, pos: u64, empties: &Vec<Vec<u8>>) -> (r: Vec<Vec<u8>>)
    requires
        sub_wf(*t, h as nat),
        h <= TREE_DEPTH,
        empties_wf(empties@),
        pos < sub_leaves(*t).len(),
    ensures
        r@.len() == h,
        forall|i: int| 0 <= i < h ==> (#[trigger] r@[i])@.len() == 32,
        path_root(h as nat, sub_leaves(*t)[pos as int], pos as int, seqs_of(r@)) == root_spec(
            h as nat,
            sub_leaves(*t),
        ),
    decreases h,
{
    match t {
        Subtree::Empty => {
            proof {
                assert(false);
            }
            vstd::pervasive::unreached()
        },
        Subtree::Leaf { hash } => {
            let r: Vec<Vec<u8>> = Vec::new();
            proof {
                assert(sub_leaves(*t)[0] == hash@);
            }
            r
        },
        Subtree::Node { hash: _, count: _, left, right } => {
            let ghost sl = sub_leaves(**left);
            let ghost sr = sub_leaves(**right);
            let half = pow2_u64(h - 1);
            proof {
                lemma_sub_leaves_bound(**left, (h - 1) as nat);
                lemma_sub_leaves_bound(**right, (h - 1) as nat);
            }
            if pos < half {
                let below = subtree_path(left, h - 1, pos, empties);
                let sib = subtree_hash(right, h - 1, empties);
                let ghost sibv = sib@;
                let mut r: Vec<Vec<u8>> = Vec::new();
                r.push(sib);
                let mut i: usize = 0;
                while i < below.len()
                    invariant
                        i <= below@.len(),
                        r@.len() == 1 + i,
                        r@[0]@ == sibv,
                        forall|j: int| 0 <= j < i ==> (#[trigger] r@[j + 1])@ == below@[j]@,
                        forall|j: int| 0 <= j < below@.len() ==> (#[trigger] below@[j])@.len()
                            == 32,
                        sibv.len() == 32,
                    decreases below@.len() - i,
                {
                    r.push(clone_bytes(&below[i]));
                    i += 1;
                }
                proof {
                    assert(seqs_of(r@).skip(1) =~= seqs_of(below@));
                    assert((sl + sr)[pos as int] == sl[pos as int]);
                    lemma_root_spec_split(h as nat, sl, sr);
                    assert forall|k: int| 0 <= k < h implies (#[trigger] r@[k])@.len() == 32 by {
                        if k > 0 {
                            let j = k - 1;
                            assert((#[trigger] r@[j + 1])@ == below@[j]@);
                            assert(r@[k]@.len() == 32);
                        }
                    }
                }
                r
            } else {
                proof {
                    assert(sr.len() > 0);
                    assert(sl.len() == half);
                }
                let below = subtree_path(right, h - 1, pos - half, empties);
                let sib = subtree_hash(left, h - 1, empties);
                let ghost sibv = sib@;
                let mut r: Vec<Vec<u8>> = Vec::new();
                r.push(sib);
                let mut i: usize = 0;
                while i < below.len()
                    invariant
                        i <= below@.len(),
                        r@.len() == 1 + i,
                        r@[0]@ == sibv,
                        forall|j: int| 0 <= j < i ==> (#[trigger] r@[j + 1])@ == below@[j]@,
                        forall|j: int| 0 <= j < below@.len() ==> (#[trigger] below@[j])@.len()
                            == 32,
                        sibv.len() == 32,
                    decreases below@.len() - i,
                {
                    r.push(clone_bytes(&below[i]));
                    i += 1;
                }
                proof {
                    assert(seqs_of(r@).skip(1) =~= seqs_of(below@));
                    assert((sl + sr)[pos as int] == sr[pos - half]);
                    lemma_root_spec_split(h as nat, sl, sr);
                    assert forall|k: int| 0 <= k < h implies (#[trigger] r@[k])@.len() == 32 by {
                        if k > 0 {
                            let j = k - 1;
                            assert((#[trigger] r@[j + 1])@ == below@[j]@);
                            assert(r@[k]@.len() == 32);
                        }
                    }
                }
                r
            }
        },
    }
}

/// Copy of a subtree with the same leaves and caches.
fn subtree_clone(t: &Subtree, h: usize) -> (r: Subtree)
    requires
        sub_wf(*t, h as nat),
        h <= TREE_DEPTH,
    ensures
        sub_wf(r, h as nat),
        sub_leaves(r) == sub_leaves(*t),
    decreases h,
{
    match t {
        Subtree::Empty => Subtree::Empty,
        Subtree::Leaf { hash } => {
            let r = Subtree::Leaf { hash: clone_bytes(hash) };
            proof {
                assert(sub_leaves(r) =~= sub_leaves(*t));
            }
            r
        },
        Subtree::Node { hash, count, left, right } => {
            let l2 = subtree_clone(left, h - 1);
            let r2 = subtree_clone(right, h - 1);
            let r = Subtree::Node {
                hash: clone_bytes(hash),
                count: *count,
                left: Box::new(l2),
                right: Box::new(r2),
            };
            proof {
                assert(sub_leaves(r) =~= sub_leaves(*t));
            }
            r
        },
    }
}

/// The rightmost (most recently appended) leaf of a non-empty subtree.
fn subtree_last(t: &Subtree, h: usize) -> (r: Vec<u8>)
    requires
        sub_wf(*t, h as nat),
        h <= TREE_DEPTH,
        sub_leaves(*t).len() > 0,
    ensures
        r@ == sub_leaves(*t).last(),
        r@.len() == 32,
    decreases h,
{
    match t {
        Subtree::Empty => {
            proof {
                assert(false);
            }
            vstd::pervasive::unreached()
        },
        Subtree::Leaf { hash } => clone_bytes(hash),
        Subtree::Node { hash: _, count: _, left, right } => {
            let ghost sl = sub_leaves(**left);
            let ghost sr = sub_leaves(**right);
            let rcount = subtree_count(right, h - 1);
            if rcount > 0 {
                let r = subtree_last(right, h - 1);
                proof {
                    assert((sl + sr).last() == sr.last());
                }
                r
            } else {
                let r = subtree_last(left, h - 1);
                proof {
                    assert(sr =~= Seq::<Seq<u8>>::empty());
                    assert((sl + sr).last() == sl.last());
                }
                r
            }
        },
    }
}

impl CommitmentTree {
    /// A deep copy with the same leaves, hence the same root.
    pub fn snapshot(&self) -> (t: CommitmentTree)
        requires
            self.wf(),
        ensures
            t.wf(),
            t.leaves() == self.leaves(),
    {
        let root = subtree_clone(&self.root, TREE_DEPTH);
        let mut empties: Vec<Vec<u8>> = Vec::new();
        let mut i: usize = 0;
        while i < self.empties.len()
            invariant
                self.wf(),
                i <= self.empties@.len(),
                empties@.len() == i,
                forall|j: int| 0 <= j < i ==> (#[trigger] empties@[j])@ == self.empties@[j]@,
            decreases self.empties@.len() - i,
        {
            empties.push(clone_bytes(&self.empties[i]));
            i += 1;
        }
        CommitmentTree { root, empties, size: self.size }
    }
}

/// An authentication path: the sibling hashes from the root down to the
/// leaf, and the leaf's position.
pub struct MerklePath {
    pub siblings: Vec<Vec<u8>>,
    pub position: u64,
}

impl MerklePath {
    pub open spec fn wf(&self) -> bool {
        &&& self.siblings@.len() == TREE_DEPTH
        &&& forall|i: int| 0 <= i < TREE_DEPTH ==> (#[trigger] self.siblings@[i])@.len() == 32
        &&& (self.position as nat) < two_pow(TREE_DEPTH as nat)
    }

    /// The root this path re-derives for a given leaf.
    pub open spec fn spec_root_for(&self, leaf: Seq<u8>) -> Seq<u8> {
        path_root(TREE_DEPTH as nat, leaf, self.position as int, seqs_of(self.siblings@))
    }
}

/// A per-coin structure that keeps an authentication path current: it
/// snapshots the tree right after its leaf is appended and must be fed
/// every later append, in order.
pub struct IncrementalWitness {
    position: u64,
    leaf: Vec<u8>,
    tree: CommitmentTree,
}

impl IncrementalWitness {
    /// The position of the witnessed leaf.
    pub closed spec fn spec_position(&self) -> u64 {
        self.position
    }

    /// The value of the witnessed leaf.
    pub closed spec fn leaf_value(&self) -> Seq<u8> {
        self.leaf@
    }

    /// The leaves of the tree state this witness is synchronized with.
    pub closed spec fn synced_leaves(&self) -> Seq<Seq<u8>> {
        self.tree.leaves()
    }

    /// The root of the synchronized tree state.
    pub open spec fn spec_root(&self) -> Seq<u8> {
        root_spec(TREE_DEPTH as nat, self.synced_leaves())
    }

    pub closed spec fn wf(&self) -> bool {
        &&& self.tree.wf()
        &&& (self.position as int) < self.synced_leaves().len()
        &&& self.leaf@ == self.synced_leaves()[self.position as int]
        &&& self.leaf@.len() == 32
    }

    /// Witness for the leaf appended last; `None` on an empty tree.
    pub fn from_tree(tree: &CommitmentTree) -> (r: Option<IncrementalWitness>)
        requires
            tree.wf(),
        ensures
            match r {
                Some(w) => {
                    &&& tree.leaves().len() > 0
                    &&& w.wf()
                    &&& w.spec_position() as int == tree.leaves().len() - 1
                    &&& w.leaf_value() == tree.leaves().last()
                    &&& w.synced_leaves() == tree.leaves()
                },
                None => tree.leaves().len() == 0,
            },
    {
        if tree.size == 0 {
            return None;
        }
        let leaf = subtree_last(&tree.root, TREE_DEPTH);
        Some(IncrementalWitness { position: tree.size - 1, leaf, tree: tree.snapshot() })
    }

    /// Feeds one tree append to the witness; fails exactly when the
    /// synchronized tree is already at capacity.
    pub fn append(&mut self, node: &MerkleNode) -> (r: Result<(), Error>)
        requires
            old(self).wf(),
            node.wf(),
        ensures
            final(self).wf(),
            final(self).spec_position() == old(self).spec_position(),
            final(self).leaf_value() == old(self).leaf_value(),
            match r {
                Ok(()) => old(self).synced_leaves().len() < two_pow(TREE_DEPTH as nat)
                    && final(self).synced_leaves() == old(self).synced_leaves().push(
                    node.value(),
                ),
                Err(e) => e == Error::TreeCapacityExceeded && old(self).synced_leaves().len()
                    == two_pow(TREE_DEPTH as nat) && final(self).synced_leaves() == old(
                    self,
                ).synced_leaves(),
            },
    {
        self.tree.append(node)
    }

    /// The authentication path for the witnessed leaf, valid against the
    /// root of the synchronized tree state.
    pub fn path(&self) -> (r: Option<MerklePath>)
        requires
            self.wf(),
        ensures
            match r {
                Some(p) => {
                    &&& p.wf()
                    &&& p.position == self.spec_position()
                    &&& p.spec_root_for(self.leaf_value()) == self.spec_root()
                },
                None => false,
            },
    {
        let siblings = subtree_path(&self.tree.root, TREE_DEPTH, self.position, &self.tree.empties);
        Some(MerklePath { siblings, position: self.position })
    }

    /// The root of the tree state the witness is synchronized with.
    pub fn root(&self) -> (r: MerkleNode)
        requires
            self.wf(),
        ensures
            r.wf(),
            r.value() == self.spec_root(),
    {
        self.tree.root()
    }
}


fn walk_rec(sibs: &Vec<Vec<u8>>, idx: usize, h: usize, leaf: &Vec<u8>, pos: u64) -> (r: Vec<u8>)
    requires
        h + idx == sibs@.len(),
        sibs@.len() <= TREE_DEPTH,
        forall|i: int| 0 <= i < sibs@.len() ==> (#[trigger] sibs@[i])@.len() == 32,
        leaf@.len() == 32,
        (pos as nat) < two_pow(h as nat),
    ensures
        r@ == path_root(h as nat, leaf@, pos as int, seqs_of(sibs@).skip(idx as int)),
        r@.len() == 32,
    decreases h,
{
    if h == 0 {
        clone_bytes(leaf)
    } else {
        let half = pow2_u64(h - 1);
        let sub_pos = if pos < half {
            pos
        } else {
            pos - half
        };
        let below = walk_rec(sibs, idx + 1, h - 1, leaf, sub_pos);
        let sib = &sibs[idx];
        proof {
            assert(seqs_of(sibs@).skip(idx as int)[0] == sibs@[idx as int]@);
            assert(seqs_of(sibs@).skip(idx as int).skip(1) =~= seqs_of(sibs@).skip(idx + 1));
        }
        if pos < half {
            combine((h - 1) as u8, &below, sib)
        } else {
            combine((h - 1) as u8, sib, &below)
        }
    }
}

/// Re-derives the root that an authentication path proves a leaf under.
pub fn walk_path(p: &MerklePath, leaf: &Vec<u8>) -> (r: Vec<u8>)
    requires
        p.wf(),
        leaf@.len() == 32,
    ensures
        r@ == p.spec_root_for(leaf@),
        r@.len() == 32,
{
    let r = walk_rec(&p.siblings, 0, TREE_DEPTH, leaf, p.position);
    proof {
        assert(seqs_of(p.siblings@).skip(0) =~= seqs_of(p.siblings@));
    }
    r
}

} // verus!
