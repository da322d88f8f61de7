//! The list index: values by position, the hashes of every height of the
//! tree above them, kept up to date under `push` and `set`.

use vstd::prelude::*;
use vstd::arithmetic::power2::{pow2, lemma_pow2_unfold, lemma_pow2_pos};
use crate::list_proof::{ListProof, ProofOfAbsence, built, half_width};
use crate::key::ProofListKey;
use crate::hash::{Digest, hash_leaf, hash_node, hash_single_node, hash_list_node, copy_bytes};
use crate::model::{
    level, count_at, height_of, path_at, merkle_root, list_hash_of, lemma_level_len,
    lemma_root_count, lemma_height_step, lemma_push_count, lemma_path_in_range, lemma_level_local,
    lemma_height_bounds, lemma_height_max, lemma_count_pow2,
};

verus! {

/// A Merkelized list of byte values indexed by `u64` positions.
pub struct ProofListIndex {
    name: String,
    family: Option<Vec<u8>>,
    values: Vec<Vec<u8>>,
    levels: Vec<Vec<Digest>>,
}

/// The values of a `ProofListIndex` from a starting position on, handed out
/// one at a time.
pub struct ProofListIndexIter {
    items: Vec<Vec<u8>>,
    pos: usize,
}

pub open spec fn values_of(v: Seq<Vec<u8>>) -> Seq<Seq<u8>> {
    v.map_values(|x: Vec<u8>| x@)
}

pub open spec fn hashes_of(v: Seq<Digest>) -> Seq<Seq<u8>> {
    v.map_values(|x: Digest| x@)
}

/// The height of the tree over `n` values, computed by halving.
pub fn height_for(n: u64) -> (r: usize)
    ensures
        r == height_of(n as nat),
        1 <= r <= 65,
{
    proof {
        lemma_height_max(n as nat);
    }
    let mut c: u64 = n;
    let mut h: usize = 1;
    while c > 1
        invariant
            h + height_of(c as nat) == height_of(n as nat) + 1,
            height_of(n as nat) <= 65,
            1 <= h,
        decreases c,
    {
        assert((c + 1) / 2 == c / 2 + c % 2);
        c = c / 2 + c % 2;
        h = h + 1;
    }
    h
}

impl View for ProofListIndex {
    type V = Seq<Seq<u8>>;

    closed spec fn view(&self) -> Seq<Seq<u8>> {
        values_of(self.values@)
    }
}

impl View for ProofListIndexIter {
    type V = Seq<Seq<u8>>;

    closed spec fn view(&self) -> Seq<Seq<u8>> {
        values_of(self.items@).subrange(self.pos as int, self.items@.len() as int)
    }
}

impl ProofListIndex {
    /// The name of the index.
    pub closed spec fn name_view(&self) -> Seq<char> {
        self.name@
    }

    /// The family identifier of the index, if it belongs to one.
    pub closed spec fn family_view(&self) -> Option<Seq<u8>> {
        match self.family {
            Some(f) => Some(f@),
            None => None,
        }
    }

    closed spec fn row(&self, k: int) -> Seq<Seq<u8>> {
        hashes_of(self.levels@[k]@)
    }

    /// Every height of the tree holds exactly the hashes of the model.
    pub closed spec fn wf(&self) -> bool {
        &&& self@.len() <= u64::MAX
        &&& self.levels@.len() == height_of(self@.len())
        &&& forall|k: int| 0 <= k < self.levels@.len() ==> #[trigger] self.row(k) == level(self@, (k + 1) as nat)
    }

    /// Heights below `from` are exact; from `from` on, every node off the
    /// path of `pos` is exact, and the node on it may be stale or missing.
    closed spec fn ready(&self, pos: nat, from: int) -> bool {
        let n = self@.len();
        &&& n <= u64::MAX
        &&& pos < n
        &&& self.levels@.len() == height_of(n)
        &&& forall|k: int| 0 <= k < from && k < self.levels@.len() ==> #[trigger] self.row(k) == level(self@, (k + 1) as nat)
        &&& forall|k: int| from <= k < self.levels@.len() ==> {
            &&& (#[trigger] self.row(k)).len() == count_at(n, (k + 1) as nat) || (self.row(k).len() + 1
                == count_at(n, (k + 1) as nat) && path_at(pos, k as nat) == self.row(k).len())
            &&& forall|j: int|
                0 <= j < self.row(k).len() && j != path_at(pos, k as nat) ==> self.row(k)[j] == level(
                    self@,
                    (k + 1) as nat,
                )[j]
        }
    }

    /// An empty list under the given name.
    pub fn new(index_name: String) -> (r: Self)
        ensures
            r.wf(),
            r@ == Seq::<Seq<u8>>::empty(),
            r.name_view() == index_name@,
            r.family_view() == None::<Seq<u8>>,
    {
        let mut levels: Vec<Vec<Digest>> = Vec::new();
        levels.push(Vec::new());
        let r = ProofListIndex { name: index_name, family: None, values: Vec::new(), levels };
        assert(r.row(0) =~= level(r@, 1));
        r
    }

    /// An empty list under the given family name and identifier within it.
    pub fn new_in_family(family_name: String, index_id: &Vec<u8>) -> (r: Self)
        ensures
            r.wf(),
            r@ == Seq::<Seq<u8>>::empty(),
            r.name_view() == family_name@,
            r.family_view() == Some(index_id@),
    {
        let mut levels: Vec<Vec<Digest>> = Vec::new();
        levels.push(Vec::new());
        let r = ProofListIndex {
            name: family_name,
            family: Some(copy_bytes(index_id)),
            values: Vec::new(),
            levels,
        };
        assert(r.row(0) =~= level(r@, 1));
        r
    }

    /// The number of values in the list.
    pub fn len(&self) -> (r: u64)
        requires
            self.wf(),
        ensures
            r == self@.len(),
    {
        self.values.len() as u64
    }

    /// Whether the list holds no value.
    pub fn is_empty(&self) -> (r: bool)
        requires
            self.wf(),
        ensures
            r == (self@.len() == 0),
    {
        self.values.len() == 0
    }

    /// The value at `index`, or `None` past the end.
    pub fn get(&self, index: u64) -> (r: Option<Vec<u8>>)
        requires
            self.wf(),
        ensures
            match r {
                Some(v) => index < self@.len() && v@ == self@[index as int],
                None => index >= self@.len(),
            },
    {
        if index < self.values.len() as u64 {
            Some(copy_bytes(&self.values[index as usize]))
        } else {
            None
        }
    }

    /// The last value, or `None` for an empty list.
    pub fn last(&self) -> (r: Option<Vec<u8>>)
        requires
            self.wf(),
        ensures
            match r {
                Some(v) => self@.len() > 0 && v@ == self@.last(),
                None => self@.len() == 0,
            },
    {
        let n = self.len();
        if n == 0 {
            None
        } else {
            self.get(n - 1)
        }
    }

    /// The height of the tree: 1 for at most one value, otherwise the least
    /// `h` with `len <= 2^(h - 1)`.
    pub fn height(&self) -> (r: u8)
        requires
            self.wf(),
        ensures
            r == height_of(self@.len()),
            self@.len() >= 1 ==> pow2((r - 1) as nat) >= self@.len(),
            r >= 2 ==> pow2((r - 2) as nat) < self@.len(),
    {
        proof {
            if self@.len() >= 1 {
                lemma_height_bounds(self@.len());
            }
        }
        height_for(self.len()) as u8
    }

    /// The Merkle root: the top hash of the tree, or the all-zero digest for
    /// an empty list.
    pub fn merkle_root(&self) -> (r: Digest)
        requires
            self.wf(),
        ensures
            r@ == merkle_root(self@),
    {
        if self.values.len() == 0 {
            Digest::zero()
        } else {
            let top = self.levels.len() - 1;
            proof {
                lemma_root_count(self@.len());
                lemma_level_len(self@, self.levels@.len() as nat);
                assert(self.row(top as int) == level(self@, (top + 1) as nat));
            }
            self.levels[top][0].duplicate()
        }
    }

    /// The list hash: `H(TAG_LIST ‖ big_endian(len) ‖ merkle_root)`.
    pub fn list_hash(&self) -> (r: Digest)
        requires
            self.wf(),
        ensures
            r@ == list_hash_of(self@),
    {
        let root = self.merkle_root();
        hash_list_node(self.len(), &root)
    }

    /// The values in position order.
    pub fn iter(&self) -> (r: ProofListIndexIter)
        requires
            self.wf(),
        ensures
            r@ == self@,
            r.wf(),
    {
        self.iter_from(0)
    }

    /// The values in position order, from position `from` on.
    pub fn iter_from(&self, from: u64) -> (r: ProofListIndexIter)
        requires
            self.wf(),
        ensures
            from <= self@.len() ==> r@ == self@.subrange(from as int, self@.len() as int),
            from > self@.len() ==> r@ == Seq::<Seq<u8>>::empty(),
            r.wf(),
    {
        let mut items: Vec<Vec<u8>> = Vec::new();
        let mut i: usize = 0;
        while i < self.values.len()
            invariant
                i <= self.values@.len(),
                values_of(items@) =~= self@.subrange(0, i as int),
            decreases self.values@.len() - i,
        {
            let ghost before = items@;
            items.push(copy_bytes(&self.values[i]));
            assert(values_of(items@) =~= values_of(before).push(self@[i as int]));
            i = i + 1;
        }
        let pos: usize = if from < items.len() as u64 {
            from as usize
        } else {
            items.len()
        };
        let r = ProofListIndexIter { items, pos };
        assert(values_of(r.items@) =~= self@);
        assert(from > self@.len() ==> r@ =~= Seq::<Seq<u8>>::empty());
        r
    }
}

impl ProofListIndex {
    /// Writes `h` at node `j` of height `k + 1`, or appends it where `j` is
    /// one past the last node there.
    fn store(&mut self, k: usize, j: usize, h: Digest)
        requires
            k < old(self).levels@.len(),
            j <= old(self).row(k as int).len(),
        ensures
            final(self)@ == old(self)@,
            final(self).name == old(self).name,
            final(self).family == old(self).family,
            final(self).levels@.len() == old(self).levels@.len(),
            forall|k2: int| 0 <= k2 < final(self).levels@.len() && k2 != k ==> #[trigger] final(self).row(k2) == old(self).row(k2),
            final(self).row(k as int) == if j < old(self).row(k as int).len() {
                old(self).row(k as int).update(j as int, h@)
            } else {
                old(self).row(k as int).push(h@)
            },
    {
        let mut row = self.levels.remove(k);
        let ghost before = row@;
        if j < row.len() {
            row.set(j, h);
            assert(hashes_of(row@) =~= hashes_of(before).update(j as int, h@));
        } else {
            row.push(h);
            assert(hashes_of(row@) =~= hashes_of(before).push(h@));
        }
        self.levels.insert(k, row);
        assert(self.levels@ =~= old(self).levels@.update(k as int, row));
    }

    /// Recomputes the hashes on the path from leaf `pos` to the root.
    fn rehash(&mut self, pos: usize)
        requires
            old(self).ready(pos as nat, 0),
        ensures
            final(self).wf(),
            final(self)@ == old(self)@,
            final(self).name == old(self).name,
            final(self).family == old(self).family,
    {
        let ghost n = self@.len();
        let ghost vals = self@;
        proof {
            lemma_path_in_range(n, pos as nat, 0);
            lemma_height_max(n);
            assert(self.row(0).len() == count_at(n, 1) || self.row(0).len() + 1 == count_at(n, 1));
        }
        let nv = self.values.len();
        let leaf = hash_leaf(&self.values[pos]);
        self.store(0, pos, leaf);
        assert(self.row(0) =~= level(vals, 1));
        let mut k: usize = 0;
        let mut key = ProofListKey::new(1, pos as u64);
        while k + 1 < self.levels.len()
            invariant
                self.ready(pos as nat, k + 1),
                self@ == vals,
                n == vals.len(),
                n <= usize::MAX,
                k + 1 <= self.levels@.len(),
                self.levels@.len() <= 65,
                key.spec_height() == k + 1,
                key.spec_index() == path_at(pos as nat, k as nat),
                self.name == old(self).name,
                self.family == old(self).family,
            decreases self.levels@.len() - k,
        {
            proof {
                lemma_path_in_range(n, pos as nat, k as nat);
                lemma_path_in_range(n, pos as nat, (k + 1) as nat);
                lemma_level_len(vals, (k + 1) as nat);
                assert(self.row(k as int) == level(vals, (k + 1) as nat));
            }
            let left = key.as_left().index() as usize;
            let row_len = self.levels[k].len();
            let h = if left < row_len - 1 {
                hash_node(&self.levels[k][left], &self.levels[k][left + 1])
            } else {
                hash_single_node(&self.levels[k][left])
            };
            assert(h@ == level(vals, (k + 2) as nat)[(key.spec_index() / 2) as int]);
            k = k + 1;
            key = key.parent();
            self.store(k, key.index() as usize, h);
            assert(self.row(k as int) =~= level(vals, (k + 1) as nat));
        }
    }

    /// Appends a value at the end of the list.
    pub fn push(&mut self, value: Vec<u8>)
        requires
            old(self).wf(),
            old(self)@.len() < u64::MAX,
        ensures
            final(self).wf(),
            final(self)@ == old(self)@.push(value@),
            final(self).name_view() == old(self).name_view(),
            final(self).family_view() == old(self).family_view(),
    {
        let n: u64 = self.values.len() as u64;
        let new_height = height_for(n + 1);
        let ghost vals = self@;
        let ghost before = self.levels@;
        self.values.push(value);
        let ghost vals2 = self@;
        assert(vals2 =~= vals.push(value@));
        proof {
            lemma_height_step(n as nat);
        }
        if self.levels.len() < new_height {
            self.levels.push(Vec::new());
        }
        proof {
            lemma_level_local(vals, vals2, n as nat, 1);
            assert forall|k: int| 0 <= k < self.levels@.len() implies {
                &&& (#[trigger] self.row(k)).len() == count_at(n as nat + 1, (k + 1) as nat) || (
                self.row(k).len() + 1 == count_at(n as nat + 1, (k + 1) as nat) && path_at(
                    n as nat,
                    k as nat,
                ) == self.row(k).len())
                &&& forall|j: int|
                    0 <= j < self.row(k).len() && j != path_at(n as nat, k as nat) ==> self.row(k)[j]
                        == level(vals2, (k + 1) as nat)[j]
            } by {
                lemma_push_count(n as nat, k as nat);
                lemma_level_local(vals, vals2, n as nat, (k + 1) as nat);
                if k < height_of(n as nat) {
                    assert(self.levels@[k] == before[k]);
                    assert(old(self).row(k) == level(vals, (k + 1) as nat));
                    lemma_level_len(vals, (k + 1) as nat);
                    assert(self.row(k) == level(vals, (k + 1) as nat));
                } else {
                    lemma_root_count(n as nat + 1);
                    assert(self.row(k) =~= Seq::<Seq<u8>>::empty());
                }
            }
        }
        self.rehash(n as usize);
    }

    /// Appends the values in order.
    pub fn extend(&mut self, values: Vec<Vec<u8>>)
        requires
            old(self).wf(),
            old(self)@.len() + values@.len() <= u64::MAX,
        ensures
            final(self).wf(),
            final(self)@ == old(self)@ + values_of(values@),
            final(self).name_view() == old(self).name_view(),
            final(self).family_view() == old(self).family_view(),
    {
        let mut i: usize = 0;
        while i < values.len()
            invariant
                self.wf(),
                i <= values@.len(),
                old(self)@.len() + values@.len() <= u64::MAX,
                self@ =~= old(self)@ + values_of(values@).subrange(0, i as int),
                self.name_view() == old(self).name_view(),
                self.family_view() == old(self).family_view(),
            decreases values@.len() - i,
        {
            self.push(copy_bytes(&values[i]));
            i = i + 1;
        }
        assert(values_of(values@).subrange(0, values@.len() as int) =~= values_of(values@));
    }

    /// Replaces the value at `index`.
    pub fn set(&mut self, index: u64, value: Vec<u8>)
        requires
            old(self).wf(),
            index < old(self)@.len(),
        ensures
            final(self).wf(),
            final(self)@ == old(self)@.update(index as int, value@),
            final(self).name_view() == old(self).name_view(),
            final(self).family_view() == old(self).family_view(),
    {
        let ghost vals = self@;
        let len = self.values.len();
        let pos = index as usize;
        self.values.set(pos, value);
        let ghost vals2 = self@;
        assert(vals2 =~= vals.update(index as int, value@));
        proof {
            assert forall|k: int| 0 <= k < self.levels@.len() implies {
                &&& (#[trigger] self.row(k)).len() == count_at(vals.len(), (k + 1) as nat) || (
                self.row(k).len() + 1 == count_at(vals.len(), (k + 1) as nat) && path_at(
                    index as nat,
                    k as nat,
                ) == self.row(k).len())
                &&& forall|j: int|
                    0 <= j < self.row(k).len() && j != path_at(index as nat, k as nat) ==> self.row(
                        k,
                    )[j] == level(vals2, (k + 1) as nat)[j]
            } by {
                lemma_level_local(vals, vals2, index as nat, (k + 1) as nat);
                lemma_level_len(vals, (k + 1) as nat);
                assert(old(self).row(k) == level(vals, (k + 1) as nat));
                assert(self.row(k) == level(vals, (k + 1) as nat));
            }
        }
        self.rehash(pos);
    }

    /// Removes every value.
    pub fn clear(&mut self)
        ensures
            final(self).wf(),
            final(self)@ == Seq::<Seq<u8>>::empty(),
            final(self).name_view() == old(self).name_view(),
            final(self).family_view() == old(self).family_view(),
    {
        self.values = Vec::new();
        let mut levels: Vec<Vec<Digest>> = Vec::new();
        levels.push(Vec::new());
        self.levels = levels;
        assert(self.row(0) =~= level(self@, 1));
    }
}

impl ProofListIndex {
    /// The proof for positions `from..to` under the node `key`, whose first
    /// leaf is `lo`; `half` is the number of leaves under each child.
    fn construct_proof(&self, key: ProofListKey, lo: u64, half: u64, from: u64, to: u64) -> (r:
        ListProof)
        requires
            self.wf(),
            1 <= key.spec_height() <= self.levels@.len(),
            lo as int == key.spec_index() * pow2((key.spec_height() - 1) as nat),
            key.spec_height() >= 2 ==> half == pow2((key.spec_height() - 2) as nat),
            lo <= from < to <= self@.len(),
            to <= lo + pow2((key.spec_height() - 1) as nat),
        ensures
            built(r, self@, key.spec_height(), key.spec_index(), from as int, to as int),
        decreases key.spec_height(),
    {
        let h = key.height() as usize;
        let i = key.index();
        let ghost n = self@.len();
        let nv = self.values.len();
        if h == 1 {
            proof {
                vstd::arithmetic::power2::lemma2_to64();
                assert(i * 1 == i);
            }
            return ListProof::Leaf(copy_bytes(&self.values[i as usize]));
        }
        let ghost q = pow2((h - 2) as nat);
        proof {
            lemma_pow2_unfold((h - 1) as nat);
            lemma_pow2_pos((h - 2) as nat);
            if h >= 3 {
                lemma_pow2_unfold((h - 2) as nat);
            }
            assert(i * pow2((h - 1) as nat) == (2 * i) * q) by (nonlinear_arith)
                requires
                    pow2((h - 1) as nat) == 2 * q,
            ;
            assert((2 * i + 1) * q == (2 * i) * q + q) by (nonlinear_arith);
            assert(2 * i + 1 <= (2 * i + 1) * q) by (nonlinear_arith)
                requires
                    q >= 1,
            ;
            assert(2 * i <= (2 * i) * q) by (nonlinear_arith)
                requires
                    q >= 1,
            ;
            lemma_count_pow2(n, (h - 1) as nat, (2 * i) as nat);
            lemma_count_pow2(n, (h - 1) as nat, (2 * i + 1) as nat);
            lemma_level_len(self@, (h - 1) as nat);
            assert(self.row(h - 2) == level(self@, (h - 1) as nat));
        }
        let k = h - 2;
        if to - lo <= half {
            let sub = self.construct_proof(key.left(), lo, half / 2, from, to);
            let right = if half < self.len() - lo {
                Some(self.levels[k][(2 * i + 1) as usize].duplicate())
            } else {
                None
            };
            ListProof::Left(Box::new(sub), right)
        } else if from - lo >= half {
            let left = self.levels[k][(2 * i) as usize].duplicate();
            let sub = self.construct_proof(key.right(), lo + half, half / 2, from, to);
            ListProof::Right(left, Box::new(sub))
        } else {
            let a = self.construct_proof(key.left(), lo, half / 2, from, lo + half);
            let b = self.construct_proof(key.right(), lo + half, half / 2, lo + half, to);
            ListProof::Full(Box::new(a), Box::new(b))
        }
    }

    /// The root of the tree: node 0 at the top height.
    fn root_key(&self) -> (r: ProofListKey)
        requires
            self.wf(),
        ensures
            r.spec_height() == height_of(self@.len()),
            r.spec_index() == 0,
    {
        ProofListKey::new(height_for(self.len()) as u8, 0)
    }

    /// The proof for positions `from..to`, descended from the root.
    fn root_proof(&self, from: u64, to: u64) -> (r: ListProof)
        requires
            self.wf(),
            from < to <= self@.len(),
        ensures
            built(r, self@, height_of(self@.len()), 0, from as int, to as int),
    {
        let height = height_for(self.len());
        let half = half_width(height, self.len());
        proof {
            lemma_height_bounds(self@.len());
            vstd::arithmetic::power2::lemma2_to64();
        }
        self.construct_proof(self.root_key(), 0, half, from, to)
    }

    /// A proof that the list has its length and Merkle root.
    fn absence(&self) -> (r: ListProof)
        requires
            self.wf(),
        ensures
            r matches ListProof::Absent(a) && a.length == self@.len() && a.merkle_root@ == merkle_root(
                self@,
            ),
    {
        ListProof::Absent(ProofOfAbsence { length: self.len(), merkle_root: self.merkle_root() })
    }

    /// A proof of existence for the value at `index`, or a proof of absence
    /// past the end of the list.
    pub fn get_proof(&self, index: u64) -> (r: ListProof)
        requires
            self.wf(),
        ensures
            index >= self@.len() ==> (r matches ListProof::Absent(a) && a.length == self@.len()
                && a.merkle_root@ == merkle_root(self@)),
            index < self@.len() ==> built(
                r,
                self@,
                height_of(self@.len()),
                0,
                index as int,
                index + 1,
            ),
    {
        if index >= self.len() {
            self.absence()
        } else {
            self.root_proof(index, index + 1)
        }
    }

    /// A proof of existence for the positions `range.start..range.end`, or
    /// a proof of absence where the range ends past the list.
    pub fn get_range_proof(&self, range: std::ops::Range<u64>) -> (r: ListProof)
        requires
            self.wf(),
            range.start < range.end,
        ensures
            range.end > self@.len() ==> (r matches ListProof::Absent(a) && a.length == self@.len()
                && a.merkle_root@ == merkle_root(self@)),
            range.end <= self@.len() ==> built(
                r,
                self@,
                height_of(self@.len()),
                0,
                range.start as int,
                range.end as int,
            ),
    {
        if range.end > self.len() {
            self.absence()
        } else {
            self.root_proof(range.start, range.end)
        }
    }
}

impl ProofListIndexIter {
    /// The position of the next value lies within the values.
    pub closed spec fn wf(&self) -> bool {
        self.pos <= self.items@.len()
    }

    /// The next value, or `None` when all have been handed out.
    pub fn next(&mut self) -> (r: Option<Vec<u8>>)
        requires
            old(self).wf(),
        ensures
            final(self).wf(),
            old(self)@.len() == 0 ==> r is None && final(self)@ == old(self)@,
            old(self)@.len() > 0 ==> r is Some && r->Some_0@ == old(self)@[0] && final(self)@
                == old(self)@.subrange(1, old(self)@.len() as int),
    {
        if self.pos < self.items.len() {
            let v = copy_bytes(&self.items[self.pos]);
            self.pos = self.pos + 1;
            assert(self@ =~= old(self)@.subrange(1, old(self)@.len() as int));
            Some(v)
        } else {
            None
        }
    }
}

} // verus!
