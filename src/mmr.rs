//! Append-only Merkle Mountain Range over SHA-256.
use crate::codec::{le_bytes, push_bytes32, push_le};
use crate::hashing::{sha256, sha256_of};
use crate::pow::pow2_u64;
use vstd::arithmetic::power2::{lemma2_to64, pow2};
use vstd::prelude::*;

verus! {

/// Leaf hash: SHA-256 of a 0x00 tag then the data.
pub open spec fn leaf_hash_of(data: Seq<u8>) -> Seq<u8> {
    sha256_of(seq![0u8] + data)
}

/// Branch hash: SHA-256 of a 0x01 tag, the left child and the right child.
pub open spec fn branch_hash_of(left: Seq<u8>, right: Seq<u8>) -> Seq<u8> {
    sha256_of(seq![1u8] + left + right)
}

/// Number of one bits of `n`.
pub open spec fn popcount(n: nat) -> nat
    decreases n,
{
    if n == 0 {
        0
    } else {
        n % 2 + popcount(n / 2)
    }
}

/// The byte strings held by a sequence of 32-byte hashes.
pub open spec fn views(p: Seq<[u8; 32]>) -> Seq<Seq<u8>> {
    p.map_values(|x: [u8; 32]| x@)
}

/// Merges the two right-most peaks while there are more than `target` of them.
pub open spec fn merge_peaks_spec(p: Seq<Seq<u8>>, target: nat) -> Seq<Seq<u8>>
    decreases p.len(),
{
    if p.len() <= target || p.len() < 2 {
        p
    } else {
        merge_peaks_spec(
            p.subrange(0, p.len() - 2).push(branch_hash_of(p[p.len() - 2], p[p.len() - 1])),
            target,
        )
    }
}

/// The branch nodes that `merge_peaks_spec` creates, in order.
pub open spec fn merge_trace(p: Seq<Seq<u8>>, target: nat) -> Seq<Seq<u8>>
    decreases p.len(),
{
    if p.len() <= target || p.len() < 2 {
        seq![]
    } else {
        let parent = branch_hash_of(p[p.len() - 2], p[p.len() - 1]);
        seq![parent] + merge_trace(p.subrange(0, p.len() - 2).push(parent), target)
    }
}

/// All hashes of `p` one after the other.
pub open spec fn concat_all(p: Seq<Seq<u8>>) -> Seq<u8>
    decreases p.len(),
{
    if p.len() == 0 {
        seq![]
    } else {
        concat_all(p.drop_last()) + p.last()
    }
}

pub open spec fn zero_hash() -> Seq<u8> {
    Seq::new(32, |i: int| 0u8)
}

/// Root of a range: zero when empty, the peak itself when single, else the
/// hash of all peaks then the leaf count (8 bytes little-endian).
pub open spec fn root_of(peaks: Seq<Seq<u8>>, leaf_count: nat) -> Seq<u8> {
    if peaks.len() == 0 {
        zero_hash()
    } else if peaks.len() == 1 {
        peaks[0]
    } else {
        sha256_of(concat_all(peaks) + le_bytes(leaf_count, 8))
    }
}

/// Position in the node list of leaf `n`, scanning its bits from bit `b` up.
pub open spec fn leaf_pos_from(n: nat, b: nat) -> nat
    decreases n,
{
    if n == 0 {
        0
    } else {
        (if n % 2 == 1 {
            (pow2(b + 1) - 1) as nat
        } else {
            0
        }) + leaf_pos_from(n / 2, b + 1)
    }
}

/// Position in the node list of leaf `n`.
pub open spec fn leaf_pos(n: nat) -> nat {
    leaf_pos_from(n, 0)
}

pub open spec fn sat_u64(x: int) -> int {
    if x > u64::MAX {
        u64::MAX as int
    } else if x < 0 {
        0
    } else {
        x
    }
}

/// Sibling of node `idx` at height `h` (even positions are left children).
pub open spec fn sibling_index(idx: nat, h: nat) -> nat {
    if idx % 2 == 0 {
        sat_u64(idx as int + pow2(h) as int) as nat
    } else {
        sat_u64(idx as int - pow2(h) as int) as nat
    }
}

/// Parent of node `idx` at height `h`.
pub open spec fn parent_index(idx: nat, h: nat) -> nat {
    if idx % 2 == 0 {
        sat_u64(idx as int + pow2(h + 1) as int - 1) as nat
    } else {
        sat_u64(idx as int + pow2(h) as int - 1) as nat
    }
}

/// Node `idx` exists and its hash is one of the peaks.
pub open spec fn is_peak_spec(nodes: Seq<Seq<u8>>, peaks: Seq<Seq<u8>>, idx: nat) -> bool {
    idx < nodes.len() && peaks.contains(nodes[idx as int])
}

/// Sibling hashes met walking up from node `idx` at height `h`, until the
/// sibling does not exist, the walk reaches a peak, or the height reaches 63.
pub open spec fn siblings_from(nodes: Seq<Seq<u8>>, peaks: Seq<Seq<u8>>, idx: nat, h: nat) -> Seq<
    Seq<u8>,
>
    decreases 63 - h,
{
    if h >= 63 {
        seq![]
    } else {
        let s = sibling_index(idx, h);
        if s >= nodes.len() {
            seq![]
        } else {
            let p = parent_index(idx, h);
            if is_peak_spec(nodes, peaks, p) {
                seq![nodes[s as int]]
            } else {
                seq![nodes[s as int]] + siblings_from(nodes, peaks, p, h + 1)
            }
        }
    }
}

/// Folds a leaf hash with its siblings up to a peak; an even index means the
/// running hash is the left child.
pub open spec fn fold_siblings(cur: Seq<u8>, idx: nat, sibs: Seq<Seq<u8>>) -> Seq<u8>
    decreases sibs.len(),
{
    if sibs.len() == 0 {
        cur
    } else {
        fold_siblings(
            if idx % 2 == 0 {
                branch_hash_of(cur, sibs[0])
            } else {
                branch_hash_of(sibs[0], cur)
            },
            idx / 2,
            sibs.drop_first(),
        )
    }
}

/// One level of root compression: neighbours hashed in pairs, an odd last
/// element promoted unchanged.
pub open spec fn compress_level(l: Seq<Seq<u8>>) -> Seq<Seq<u8>> {
    Seq::new(
        ((l.len() + 1) / 2) as nat,
        |k: int|
            if 2 * k + 1 < l.len() {
                branch_hash_of(l[2 * k], l[2 * k + 1])
            } else {
                l[2 * k]
            },
    )
}

/// Repeats `compress_level` down to one element.
pub open spec fn compress_all(l: Seq<Seq<u8>>) -> Seq<Seq<u8>>
    decreases l.len(),
{
    if l.len() <= 1 {
        l
    } else {
        compress_all(compress_level(l))
    }
}

/// Merkle Mountain Range accumulator.
#[derive(Clone, Debug)]
pub struct MMR {
    /// Number of leaves.
    pub leaf_count: u64,
    /// Peak hashes, left to right, one per mountain.
    pub peaks: Vec<[u8; 32]>,
    /// All nodes, leaves and branches, in insertion order.
    pub nodes: Vec<[u8; 32]>,
    /// Number of nodes.
    pub size: u64,
}

/// Proof that a leaf is in the range.
#[derive(Clone, Debug, PartialEq, Eq)]
pub struct MMRProof {
    pub leaf_index: u64,
    pub leaf_hash: [u8; 32],
    pub siblings: Vec<[u8; 32]>,
    pub peaks: Vec<[u8; 32]>,
    pub leaf_count: u64,
}

/// Largest leaf count the accumulator supports, so that node counts fit.
pub const MAX_LEAVES: u64 = 0x4000_0000_0000_0000;

proof fn lemma_popcount_succ(n: nat)
    ensures
        popcount(n + 1) <= popcount(n) + 1,
        popcount(n + 1) >= 1,
    decreases n,
{
    if n % 2 == 1 {
        assert((n + 1) / 2 == n / 2 + 1);
        lemma_popcount_succ(n / 2);
    } else {
        assert((n + 1) / 2 == n / 2);
    }
}

proof fn lemma_popcount_le(n: nat)
    ensures
        popcount(n) <= n,
    decreases n,
{
    if n > 0 {
        lemma_popcount_le(n / 2);
    }
}

impl MMR {
    /// The node hashes.
    pub open spec fn nodes_view(&self) -> Seq<Seq<u8>> {
        views(self.nodes@)
    }

    /// Peaks follow the binary form of the leaf count, and the node list holds
    /// each leaf and each merge.
    pub open spec fn wf(&self) -> bool {
        &&& self.leaf_count <= MAX_LEAVES
        &&& self.peaks@.len() == popcount(self.leaf_count as nat)
        &&& self.size == self.nodes@.len()
        &&& self.nodes@.len() == 2 * self.leaf_count - popcount(self.leaf_count as nat)
    }

    pub fn new() -> (r: Self)
        ensures
            r.wf(),
            r.leaf_count == 0,
            r.peaks@.len() == 0,
    {
        MMR { leaf_count: 0, peaks: Vec::new(), nodes: Vec::new(), size: 0 }
    }

    /// Root over the current peaks.
    pub fn root(&self) -> (r: [u8; 32])
        ensures
            r@ == root_of(views(self.peaks@), self.leaf_count as nat),
    {
        compute_root_from_peaks(self.peaks.as_slice(), self.leaf_count)
    }

    /// Appends a leaf holding `data`; returns its index.
    pub fn append(&mut self, data: &[u8]) -> (r: u64)
        requires
            old(self).wf(),
            old(self).leaf_count < MAX_LEAVES,
        ensures
            final(self).wf(),
            r == old(self).leaf_count,
            final(self).leaf_count == old(self).leaf_count + 1,
            views(final(self).peaks@) == merge_peaks_spec(
                views(old(self).peaks@).push(leaf_hash_of(data@)),
                popcount(final(self).leaf_count as nat),
            ),
            final(self).nodes_view() == old(self).nodes_view().push(leaf_hash_of(data@)) + merge_trace(
                views(old(self).peaks@).push(leaf_hash_of(data@)),
                popcount(final(self).leaf_count as nat),
            ),
    {
        let leaf_hash = hash_leaf(data);
        self.append_hash(leaf_hash)
    }

    /// Appends a leaf whose hash is already known; returns its index.
    pub fn append_hash(&mut self, leaf_hash: [u8; 32]) -> (r: u64)
        requires
            old(self).wf(),
            old(self).leaf_count < MAX_LEAVES,
        ensures
            final(self).wf(),
            r == old(self).leaf_count,
            final(self).leaf_count == old(self).leaf_count + 1,
            views(final(self).peaks@) == merge_peaks_spec(
                views(old(self).peaks@).push(leaf_hash@),
                popcount(final(self).leaf_count as nat),
            ),
            final(self).nodes_view() == old(self).nodes_view().push(leaf_hash@) + merge_trace(
                views(old(self).peaks@).push(leaf_hash@),
                popcount(final(self).leaf_count as nat),
            ),
    {
        let leaf_index = self.leaf_count;
        proof {
            lemma_popcount_succ(self.leaf_count as nat);
            lemma_popcount_le(self.leaf_count as nat);
        }
        self.leaf_count = self.leaf_count + 1;
        self.nodes.push(leaf_hash);
        self.size = self.size + 1;
        self.peaks.push(leaf_hash);
        proof {
            assert(views(self.peaks@) =~= views(old(self).peaks@).push(leaf_hash@));
            assert(self.nodes_view() =~= old(self).nodes_view().push(leaf_hash@));
        }
        self.merge_peaks();
        leaf_index
    }

    /// Merges peaks of equal height after an append.
    fn merge_peaks(&mut self)
        requires
            old(self).leaf_count <= MAX_LEAVES,
            old(self).leaf_count >= 1,
            old(self).peaks@.len() == popcount((old(self).leaf_count - 1) as nat) + 1,
            old(self).size == old(self).nodes@.len(),
            old(self).nodes@.len() + old(self).peaks@.len() == 2 * old(self).leaf_count,
        ensures
            final(self).wf(),
            final(self).leaf_count == old(self).leaf_count,
            views(final(self).peaks@) == merge_peaks_spec(
                views(old(self).peaks@),
                popcount(old(self).leaf_count as nat),
            ),
            final(self).nodes_view() == old(self).nodes_view() + merge_trace(
                views(old(self).peaks@),
                popcount(old(self).leaf_count as nat),
            ),
    {
        self.merge_equal_height_peaks();
    }

    fn merge_equal_height_peaks(&mut self)
        requires
            old(self).leaf_count <= MAX_LEAVES,
            old(self).leaf_count >= 1,
            old(self).peaks@.len() == popcount((old(self).leaf_count - 1) as nat) + 1,
            old(self).size == old(self).nodes@.len(),
            old(self).nodes@.len() + old(self).peaks@.len() == 2 * old(self).leaf_count,
        ensures
            final(self).wf(),
            final(self).leaf_count == old(self).leaf_count,
            views(final(self).peaks@) == merge_peaks_spec(
                views(old(self).peaks@),
                popcount(old(self).leaf_count as nat),
            ),
            final(self).nodes_view() == old(self).nodes_view() + merge_trace(
                views(old(self).peaks@),
                popcount(old(self).leaf_count as nat),
            ),
    {
        let expected = popcount_u64(self.leaf_count);
        proof {
            lemma_popcount_succ((self.leaf_count - 1) as nat);
            lemma_popcount_le(self.leaf_count as nat);
        }
        let ghost goal = merge_peaks_spec(views(self.peaks@), expected as nat);
        let ghost start_nodes = self.nodes_view();
        let ghost trace = merge_trace(views(self.peaks@), expected as nat);
        proof {
            assert(start_nodes + trace =~= self.nodes_view() + merge_trace(views(self.peaks@), expected as nat));
        }
        while self.peaks.len() > expected as usize
            invariant
                expected == popcount(self.leaf_count as nat),
                expected >= 1,
                self.leaf_count == old(self).leaf_count,
                self.leaf_count <= MAX_LEAVES,
                self.peaks@.len() >= expected,
                self.size == self.nodes@.len(),
                self.nodes@.len() + self.peaks@.len() == 2 * self.leaf_count,
                merge_peaks_spec(views(self.peaks@), expected as nat) == goal,
                self.nodes_view() + merge_trace(views(self.peaks@), expected as nat) == start_nodes
                    + trace,
            decreases self.peaks@.len(),
        {
            let ghost before = views(self.peaks@);
            let ghost nodes_before = self.nodes_view();
            let right = self.peaks.pop().unwrap();
            let left = self.peaks.pop().unwrap();
            let parent = hash_branch(&left, &right);
            self.nodes.push(parent);
            self.size = self.size + 1;
            self.peaks.push(parent);
            proof {
                assert(views(self.peaks@) =~= before.subrange(0, before.len() - 2).push(
                    branch_hash_of(before[before.len() - 2], before[before.len() - 1]),
                ));
                let parent_view = branch_hash_of(before[before.len() - 2], before[before.len() - 1]);
                assert(self.nodes_view() =~= nodes_before.push(parent_view));
                assert(merge_trace(before, expected as nat) == seq![parent_view] + merge_trace(
                    views(self.peaks@),
                    expected as nat,
                ));
                assert(self.nodes_view() + merge_trace(views(self.peaks@), expected as nat)
                    =~= nodes_before + merge_trace(before, expected as nat));
            }
        }
        proof {
            assert(merge_peaks_spec(views(self.peaks@), expected as nat) == views(self.peaks@));
            assert(merge_trace(views(self.peaks@), expected as nat) == Seq::<Seq<u8>>::empty());
            assert(self.nodes_view() =~= self.nodes_view() + Seq::<Seq<u8>>::empty());
        }
    }

    /// Proof for leaf `leaf_index`: its hash, the sibling hashes up to a peak,
    /// the current peaks and leaf count.
    pub fn generate_proof(&self, leaf_index: u64) -> (r: Option<MMRProof>)
        requires
            self.wf(),
        ensures
            leaf_index >= self.leaf_count ==> r is None,
            leaf_index < self.leaf_count ==> (r is None <==> leaf_pos(leaf_index as nat)
                >= self.nodes_view().len()),
            r matches Some(p) ==> {
                &&& p.leaf_index == leaf_index
                &&& p.leaf_count == self.leaf_count
                &&& p.peaks@ == self.peaks@
                &&& p.leaf_hash@ == self.nodes_view()[leaf_pos(leaf_index as nat) as int]
                &&& views(p.siblings@) == siblings_from(
                    self.nodes_view(),
                    views(self.peaks@),
                    leaf_pos(leaf_index as nat),
                    0,
                )
            },
    {
        if leaf_index >= self.leaf_count {
            return None;
        }
        let siblings = self.compute_proof_siblings(leaf_index);
        let leaf_hash = match self.get_leaf_hash(leaf_index) {
            Some(h) => h,
            None => {
                return None;
            },
        };
        Some(
            MMRProof {
                leaf_index,
                leaf_hash,
                siblings,
                peaks: copy_hashes(self.peaks.as_slice()),
                leaf_count: self.leaf_count,
            },
        )
    }

    /// Hash stored for leaf `leaf_index`, if its position is in the node list.
    fn get_leaf_hash(&self, leaf_index: u64) -> (r: Option<[u8; 32]>)
        requires
            leaf_index < MAX_LEAVES,
        ensures
            r is None <==> leaf_pos(leaf_index as nat) >= self.nodes_view().len(),
            r matches Some(h) ==> h@ == self.nodes_view()[leaf_pos(leaf_index as nat) as int],
    {
        let node_index = leaf_to_node_index(leaf_index);
        if node_index < self.nodes.len() as u64 {
            Some(self.nodes[node_index as usize])
        } else {
            None
        }
    }

    fn compute_proof_siblings(&self, leaf_index: u64) -> (r: Vec<[u8; 32]>)
        requires
            leaf_index < MAX_LEAVES,
        ensures
            views(r@) == siblings_from(
                self.nodes_view(),
                views(self.peaks@),
                leaf_pos(leaf_index as nat),
                0,
            ),
    {
        let mut siblings: Vec<[u8; 32]> = Vec::new();
        let start = leaf_to_node_index(leaf_index);
        self.collect_siblings(start, 0, &mut siblings);
        proof {
            assert(views(siblings@) =~= Seq::<Seq<u8>>::empty() + siblings_from(
                self.nodes_view(),
                views(self.peaks@),
                start as nat,
                0,
            ));
        }
        siblings
    }

    /// Appends the siblings met walking up from `current` at `height`.
    fn collect_siblings(&self, current: u64, height: u32, out: &mut Vec<[u8; 32]>)
        requires
            height <= 63,
        ensures
            views(final(out)@) == views(old(out)@) + siblings_from(
                self.nodes_view(),
                views(self.peaks@),
                current as nat,
                height as nat,
            ),
        decreases 63 - height,
    {
        let ghost start = views(out@);
        if height >= 63 {
            proof {
                assert(views(out@) =~= start + Seq::<Seq<u8>>::empty());
            }
            return;
        }
        let sibling = get_sibling_index(current, height);
        if sibling >= self.nodes.len() as u64 {
            proof {
                assert(views(out@) =~= start + Seq::<Seq<u8>>::empty());
            }
            return;
        }
        out.push(self.nodes[sibling as usize]);
        let parent = get_parent_index(current, height);
        if self.is_peak_node(parent) {
            proof {
                assert(views(out@) =~= start + seq![self.nodes@[sibling as int]@]);
            }
            return;
        }
        let ghost mid = views(out@);
        self.collect_siblings(parent, height + 1, out);
        proof {
            assert(mid =~= start + seq![self.nodes@[sibling as int]@]);
            assert(views(out@) =~= start + (seq![self.nodes@[sibling as int]@] + siblings_from(
                self.nodes_view(),
                views(self.peaks@),
                parent as nat,
                (height + 1) as nat,
            )));
        }
    }

    /// Whether node `node_index` exists and its hash is one of the peaks.
    fn is_peak_node(&self, node_index: u64) -> (r: bool)
        ensures
            r == is_peak_spec(self.nodes_view(), views(self.peaks@), node_index as nat),
    {
        if node_index >= self.nodes.len() as u64 {
            return false;
        }
        let hash = self.nodes[node_index as usize];
        contains_hash(self.peaks.as_slice(), &hash)
    }

    /// Number of peaks: the number of one bits of the leaf count.
    pub fn peak_count(&self) -> (r: u32)
        ensures
            r == popcount(self.leaf_count as nat),
    {
        proof {
            lemma_popcount_le(self.leaf_count as nat);
            lemma2_to64();
            lemma_popcount_bits(self.leaf_count as nat, 64);
        }
        popcount_u64(self.leaf_count) as u32
    }
}

proof fn lemma_popcount_bits(n: nat, k: nat)
    requires
        n < pow2(k),
    ensures
        popcount(n) <= k,
    decreases k,
{
    if n > 0 {
        if k == 0 {
            vstd::arithmetic::power2::lemma2_to64();
        } else {
            vstd::arithmetic::power2::lemma_pow2_unfold(k);
            lemma_popcount_bits(n / 2, (k - 1) as nat);
        }
    }
}

/// In a well-formed range the number of peaks is the number of one bits of
/// the leaf count.
pub proof fn lemma_peaks_follow_leaf_count(m: MMR)
    requires
        m.wf(),
    ensures
        m.peaks@.len() == popcount(m.leaf_count as nat),
{
}

/// Number of one bits of `n`.
fn popcount_u64(n: u64) -> (r: u64)
    ensures
        r == popcount(n as nat),
{
    let mut count: u64 = n;
    let mut r: u64 = 0;
    proof {
        lemma_popcount_le(n as nat);
    }
    while count > 0
        invariant
            popcount(n as nat) == r + popcount(count as nat),
            popcount(n as nat) <= n,
        decreases count,
    {
        r = r + count % 2;
        count = count / 2;
    }
    r
}

/// Whether some element of `hashes` equals `h`.
fn contains_hash(hashes: &[[u8; 32]], h: &[u8; 32]) -> (r: bool)
    ensures
        r == views(hashes@).contains(h@),
{
    let mut i: usize = 0;
    while i < hashes.len()
        invariant
            i <= hashes@.len(),
            forall|j: int| 0 <= j < i ==> hashes@[j]@ != h@,
        decreases hashes@.len() - i,
    {
        if crate::codec::eq32(&hashes[i], h) {
            proof {
                assert(views(hashes@)[i as int] == h@);
            }
            return true;
        }
        i = i + 1;
    }
    proof {
        if views(hashes@).contains(h@) {
            let j = choose|j: int| 0 <= j < views(hashes@).len() && views(hashes@)[j] == h@;
            assert(hashes@[j]@ == h@);
        }
    }
    false
}

/// Whether `proof` leads from its leaf to one of its peaks, and its peaks to
/// `expected_root`.
pub fn verify_proof(proof: &MMRProof, expected_root: &[u8; 32]) -> (r: bool)
    ensures
        r == (views(proof.peaks@).contains(
            fold_siblings(proof.leaf_hash@, proof.leaf_index as nat, views(proof.siblings@)),
        ) && root_of(views(proof.peaks@), proof.leaf_count as nat) == expected_root@),
{
    let mut current = proof.leaf_hash;
    let mut index = proof.leaf_index;
    let ghost goal = fold_siblings(proof.leaf_hash@, proof.leaf_index as nat, views(proof.siblings@));
    let mut i: usize = 0;
    proof {
        assert(views(proof.siblings@).subrange(0, proof.siblings@.len() as int) =~= views(proof.siblings@));
    }
    while i < proof.siblings.len()
        invariant
            i <= proof.siblings@.len(),
            goal == fold_siblings(current@, index as nat, views(proof.siblings@).subrange(i as int, proof.siblings@.len() as int)),
        decreases proof.siblings@.len() - i,
    {
        let ghost rest = views(proof.siblings@).subrange(i as int, proof.siblings@.len() as int);
        proof {
            assert(rest.drop_first() =~= views(proof.siblings@).subrange(i + 1, proof.siblings@.len() as int));
        }
        let sibling = &proof.siblings[i];
        if index % 2 == 0 {
            current = hash_branch(&current, sibling);
        } else {
            current = hash_branch(sibling, &current);
        }
        index = index / 2;
        i = i + 1;
    }
    proof {
        assert(views(proof.siblings@).subrange(i as int, proof.siblings@.len() as int).len() == 0);
    }
    if !contains_hash(proof.peaks.as_slice(), &current) {
        return false;
    }
    let computed = compute_root_from_peaks(proof.peaks.as_slice(), proof.leaf_count);
    crate::codec::eq32(&computed, expected_root)
}

/// Root from peaks and leaf count.
pub fn compute_root_from_peaks(peaks: &[[u8; 32]], leaf_count: u64) -> (r: [u8; 32])
    ensures
        r@ == root_of(views(peaks@), leaf_count as nat),
{
    if peaks.len() == 0 {
        let z = [0u8; 32];
        proof {
            assert(z@ =~= zero_hash());
        }
        return z;
    }
    if peaks.len() == 1 {
        return peaks[0];
    }
    let mut buf: Vec<u8> = Vec::new();
    let mut i: usize = 0;
    while i < peaks.len()
        invariant
            i <= peaks@.len(),
            buf@ == concat_all(views(peaks@).subrange(0, i as int)),
        decreases peaks@.len() - i,
    {
        proof {
            let s = views(peaks@).subrange(0, i + 1);
            assert(s.drop_last() =~= views(peaks@).subrange(0, i as int));
        }
        push_bytes32(&mut buf, &peaks[i]);
        i = i + 1;
    }
    proof {
        assert(views(peaks@).subrange(0, peaks@.len() as int) =~= views(peaks@));
    }
    push_le(&mut buf, leaf_count as u128, 8);
    sha256(buf.as_slice())
}

/// Leaf hash: SHA-256 of 0x00 then `data`.
pub fn hash_leaf(data: &[u8]) -> (r: [u8; 32])
    ensures
        r@ == leaf_hash_of(data@),
{
    let mut buf: Vec<u8> = Vec::new();
    buf.push(0u8);
    let mut i: usize = 0;
    while i < data.len()
        invariant
            i <= data@.len(),
            buf@ == seq![0u8] + data@.subrange(0, i as int),
        decreases data@.len() - i,
    {
        buf.push(data[i]);
        proof {
            assert(buf@ =~= seq![0u8] + data@.subrange(0, i + 1));
        }
        i = i + 1;
    }
    proof {
        assert(data@.subrange(0, data@.len() as int) =~= data@);
    }
    sha256(buf.as_slice())
}

/// Branch hash: SHA-256 of 0x01, `left`, then `right`.
pub fn hash_branch(left: &[u8; 32], right: &[u8; 32]) -> (r: [u8; 32])
    ensures
        r@ == branch_hash_of(left@, right@),
{
    let mut buf: Vec<u8> = Vec::new();
    buf.push(1u8);
    push_bytes32(&mut buf, left);
    push_bytes32(&mut buf, right);
    sha256(buf.as_slice())
}

/// Position in the node list of leaf `leaf_index`.
fn leaf_to_node_index(leaf_index: u64) -> (r: u64)
    requires
        leaf_index < MAX_LEAVES,
    ensures
        r == leaf_pos(leaf_index as nat),
{
    mmr_leaf_to_pos(leaf_index)
}

proof fn lemma_pow2_mono(a: nat, b: nat)
    requires
        a <= b,
    ensures
        pow2(a) <= pow2(b),
{
    if a < b {
        vstd::arithmetic::power2::lemma_pow2_strictly_increases(a, b);
    }
}

proof fn lemma_leaf_pos_bound(n: nat, b: nat)
    ensures
        leaf_pos_from(n, b) <= 2 * n * pow2(b),
    decreases n,
{
    if n > 0 {
        lemma_leaf_pos_bound(n / 2, b + 1);
        vstd::arithmetic::power2::lemma_pow2_unfold(b + 1);
        vstd::arithmetic::power2::lemma_pow2_pos(b);
        assert(2 * (n / 2) * pow2(b + 1) + (if n % 2 == 1 {
            pow2(b + 1) as int - 1
        } else {
            0
        }) <= 2 * n * pow2(b)) by (nonlinear_arith)
            requires
                pow2(b + 1) == 2 * pow2(b),
                n == 2 * (n / 2) + n % 2,
                0 <= n % 2 <= 1,
                pow2(b) > 0,
        ;
    }
}

/// Position of leaf `leaf_index` among all nodes: the sum, over its one bits
/// `b`, of the size `2^(b+1) - 1` of a perfect tree of height `b`.
fn mmr_leaf_to_pos(leaf_index: u64) -> (r: u64)
    requires
        leaf_index < MAX_LEAVES,
    ensures
        r == leaf_pos(leaf_index as nat),
{
    let mut pos: u64 = 0;
    let mut remaining: u64 = leaf_index;
    let mut bit: u32 = 0;
    proof {
        lemma_leaf_pos_bound(leaf_index as nat, 0);
        lemma2_to64();
    }
    while remaining > 0
        invariant
            leaf_pos(leaf_index as nat) == pos + leaf_pos_from(remaining as nat, bit as nat),
            leaf_pos(leaf_index as nat) <= 2 * leaf_index,
            leaf_index < MAX_LEAVES,
            remaining as nat * pow2(bit as nat) <= leaf_index,
            bit <= 63,
            remaining > 0 ==> bit < 63,
        decreases remaining,
    {
        proof {
            vstd::arithmetic::power2::lemma_pow2_unfold((bit + 1) as nat);
            vstd::arithmetic::power2::lemma_pow2_pos(bit as nat);
            lemma2_to64();
            if bit >= 62 {
                vstd::arithmetic::power2::lemma2_to64_rest();
                lemma_pow2_mono(62, bit as nat);
                assert(remaining as nat * pow2(bit as nat) >= pow2(bit as nat)) by (nonlinear_arith)
                    requires
                        remaining >= 1,
                        pow2(bit as nat) > 0,
                ;
            }
            assert((remaining / 2) as nat * pow2((bit + 1) as nat) <= remaining as nat * pow2(bit as nat)) by (nonlinear_arith)
                requires
                    pow2((bit + 1) as nat) == 2 * pow2(bit as nat),
                    pow2(bit as nat) > 0,
            ;
        }
        let ghost r0 = remaining;
        let ghost b0 = bit;
        if remaining % 2 == 1 {
            pos = pos + (pow2_u64(bit + 1) - 1);
        }
        remaining = remaining / 2;
        bit = bit + 1;
        proof {
            assert(remaining == r0 / 2 && bit == b0 + 1);
            assert(remaining as nat * pow2(bit as nat) <= leaf_index);
            if remaining > 0 && bit >= 63 {
                vstd::arithmetic::power2::lemma2_to64_rest();
                lemma_pow2_mono(62, bit as nat);
                assert(remaining as nat * pow2(bit as nat) >= pow2(bit as nat)) by (nonlinear_arith)
                    requires
                        remaining >= 1,
                        pow2(bit as nat) > 0,
                ;
            }
        }
    }
    pos
}

fn get_sibling_index(node_index: u64, height: u32) -> (r: u64)
    requires
        height < 63,
    ensures
        r == sibling_index(node_index as nat, height as nat),
{
    let step = pow2_u64(height);
    if is_left_child(node_index, height) {
        node_index.saturating_add(step)
    } else {
        node_index.saturating_sub(step)
    }
}

fn get_parent_index(node_index: u64, height: u32) -> (r: u64)
    requires
        height < 63,
    ensures
        r == parent_index(node_index as nat, height as nat),
{
    if is_left_child(node_index, height) {
        let step = pow2_u64(height + 1);
        node_index.saturating_add(step - 1)
    } else {
        let step = pow2_u64(height);
        node_index.saturating_add(step - 1)
    }
}

/// Even positions are left children.
fn is_left_child(node_index: u64, _height: u32) -> (r: bool)
    ensures
        r == (node_index % 2 == 0),
{
    node_index % 2 == 0
}

fn copy_hashes(src: &[[u8; 32]]) -> (r: Vec<[u8; 32]>)
    ensures
        r@ == src@,
{
    let mut r: Vec<[u8; 32]> = Vec::new();
    let mut i: usize = 0;
    while i < src.len()
        invariant
            i <= src@.len(),
            r@ =~= src@.subrange(0, i as int),
        decreases src@.len() - i,
    {
        r.push(src[i]);
        i = i + 1;
    }
    r
}

/// Compresses several roots into one by hashing neighbours pairwise, level by
/// level; zero for none, the root itself for one.
pub fn compress_roots(roots: &[[u8; 32]]) -> (r: [u8; 32])
    ensures
        roots@.len() == 0 ==> r@ == zero_hash(),
        roots@.len() > 0 ==> r@ == compress_all(views(roots@))[0],
{
    if roots.len() == 0 {
        let z = [0u8; 32];
        proof {
            assert(z@ =~= zero_hash());
        }
        return z;
    }
    if roots.len() == 1 {
        return roots[0];
    }
    let mut current: Vec<[u8; 32]> = copy_hashes(roots);
    proof {
        assert(views(current@) =~= views(roots@));
    }
    while current.len() > 1
        invariant
            current@.len() >= 1,
            compress_all(views(current@)) == compress_all(views(roots@)),
        decreases current@.len(),
    {
        let ghost level = views(current@);
        let mut next: Vec<[u8; 32]> = Vec::new();
        let mut i: usize = 0;
        while i < current.len()
            invariant
                level == views(current@),
                i <= current@.len(),
                i % 2 == 0 || i == current@.len(),
                views(next@) =~= compress_level(level).subrange(0, (i as int + 1) / 2),
            decreases current@.len() - i,
        {
            let ghost k = i as int / 2;
            proof {
                assert(2 * k == i);
            }
            let ghost before = views(next@);
            if i + 1 < current.len() {
                let h = hash_branch(&current[i], &current[i + 1]);
                next.push(h);
                proof {
                    assert(views(next@) =~= before.push(h@));
                    assert(compress_level(level)[k] == branch_hash_of(level[i as int], level[i + 1]));
                    assert(views(next@) =~= compress_level(level).subrange(0, k + 1));
                }
                i = i + 2;
            } else {
                let h = current[i];
                next.push(h);
                proof {
                    assert(views(next@) =~= before.push(h@));
                    assert(compress_level(level)[k] == level[i as int]);
                    assert(views(next@) =~= compress_level(level).subrange(0, k + 1));
                }
                i = i + 1;
            }
        }
        proof {
            assert(views(next@) =~= compress_level(level));
        }
        current = next;
    }
    proof {
        assert(compress_all(views(current@)) == views(current@));
    }
    current[0]
}

} // verus!
