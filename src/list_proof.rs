//! Proofs of existence for list positions and ranges, proofs of absence,
//! and their verification against a list hash.

use vstd::prelude::*;
use vstd::arithmetic::power2::{pow2, lemma_pow2_unfold, lemma_pow2_pos};
use crate::hash::{
    Digest, leaf_hash, node_hash, single_node_hash, list_node_hash, hash_leaf, hash_node,
    hash_single_node, hash_list_node, copy_bytes,
};
use crate::model::{
    level, height_of, merkle_root, list_hash_of, lemma_height_bounds, lemma_count_pow2, lemma_level_len,
};
use crate::index::height_for;

verus! {

/// A claim that a list of `length` values has the given Merkle root.
#[derive(Debug)]
pub struct ProofOfAbsence {
    pub length: u64,
    pub merkle_root: Digest,
}

/// A proof tree, descended from the root of the list's tree.
#[derive(Debug)]
pub enum ListProof {
    /// Both children hold requested positions.
    Full(Box<ListProof>, Box<ListProof>),
    /// Only the left child holds requested positions; the right child's
    /// hash, where that child exists.
    Left(Box<ListProof>, Option<Digest>),
    /// Only the right child holds requested positions; the left child's hash.
    Right(Digest, Box<ListProof>),
    /// A value at height 1.
    Leaf(Vec<u8>),
    /// The requested positions lie beyond the list.
    Absent(ProofOfAbsence),
}

/// Why a proof was rejected.
#[derive(Debug, Clone, Copy, PartialEq, Eq, Structural)]
pub enum ListProofError {
    /// The tree does not fit the list's shape.
    MalformedTree,
    /// The recomputed list hash differs from the expected one.
    HashMismatch,
    /// A proof of absence claims another length.
    LengthMismatch,
}

pub open spec fn entries_of(v: Seq<(u64, Vec<u8>)>) -> Seq<(u64, Seq<u8>)> {
    v.map_values(|e: (u64, Vec<u8>)| (e.0, e.1@))
}

/// The positions `from..to` of `values`, each with its value.
pub open spec fn entries(values: Seq<Seq<u8>>, from: int, to: int) -> Seq<(u64, Seq<u8>)> {
    Seq::new((to - from) as nat, |k: int| ((from + k) as u64, values[from + k]))
}

/// Whether node `i` at height `h` of a list of `n` values has a right child.
pub open spec fn has_right(h: nat, i: nat, n: nat) -> bool {
    (2 * i + 1) * pow2((h - 2) as nat) < n
}

/// Whether `p` is the proof that a list of `values` gives for the positions
/// `from..to` under node `i` at height `h`.
pub open spec fn built(p: ListProof, values: Seq<Seq<u8>>, h: nat, i: nat, from: int, to: int) -> bool
    decreases h,
{
    let n = values.len();
    if h <= 1 {
        match p {
            ListProof::Leaf(v) => v@ == values[i as int],
            _ => false,
        }
    } else {
        let m = (i * pow2((h - 1) as nat) + pow2((h - 2) as nat)) as int;
        if to <= m {
            match p {
                ListProof::Left(sub, right) => built(*sub, values, (h - 1) as nat, 2 * i, from, to)
                    && match right {
                    Some(d) => has_right(h, i, n) && d@ == level(values, (h - 1) as nat)[(2 * i + 1) as int],
                    None => !has_right(h, i, n),
                },
                _ => false,
            }
        } else if m <= from {
            match p {
                ListProof::Right(l, sub) => l@ == level(values, (h - 1) as nat)[(2 * i) as int] && built(
                    *sub,
                    values,
                    (h - 1) as nat,
                    2 * i + 1,
                    from,
                    to,
                ),
                _ => false,
            }
        } else {
            match p {
                ListProof::Full(a, b) => built(*a, values, (h - 1) as nat, 2 * i, from, m) && built(
                    *b,
                    values,
                    (h - 1) as nat,
                    2 * i + 1,
                    m,
                    to,
                ),
                _ => false,
            }
        }
    }
}

/// Recomputes the hash of node `i` at height `h` from a proof tree, with the
/// positions and values it covers; `None` where the tree does not fit a list
/// of `n` values.
pub open spec fn check(p: ListProof, h: nat, i: nat, n: nat) -> Option<(Seq<u8>, Seq<(u64, Seq<u8>)>)>
    decreases p,
{
    match p {
        ListProof::Leaf(v) => if h == 1 && i < n {
            Some((leaf_hash(v@), seq![(i as u64, v@)]))
        } else {
            None
        },
        ListProof::Left(sub, right) => if h >= 2 {
            match check(*sub, (h - 1) as nat, 2 * i, n) {
                Some(l) => match right {
                    Some(r) => if has_right(h, i, n) {
                        Some((node_hash(l.0, r@), l.1))
                    } else {
                        None
                    },
                    None => if !has_right(h, i, n) {
                        Some((single_node_hash(l.0), l.1))
                    } else {
                        None
                    },
                },
                None => None,
            }
        } else {
            None
        },
        ListProof::Right(l, sub) => if h >= 2 && has_right(h, i, n) {
            match check(*sub, (h - 1) as nat, 2 * i + 1, n) {
                Some(r) => Some((node_hash(l@, r.0), r.1)),
                None => None,
            }
        } else {
            None
        },
        ListProof::Full(a, b) => if h >= 2 && has_right(h, i, n) {
            match check(*a, (h - 1) as nat, 2 * i, n) {
                Some(x) => match check(*b, (h - 1) as nat, 2 * i + 1, n) {
                    Some(y) => Some((node_hash(x.0, y.0), x.1 + y.1)),
                    None => None,
                },
                None => None,
            }
        } else {
            None
        },
        ListProof::Absent(_) => None,
    }
}

/// The outcome of verifying `p` against a list of `len` values whose list
/// hash is `expected`.
pub open spec fn verify_spec(p: ListProof, len: u64, expected: Seq<u8>) -> Result<
    Seq<(u64, Seq<u8>)>,
    ListProofError,
> {
    match p {
        ListProof::Absent(a) => if a.length != len {
            Err(ListProofError::LengthMismatch)
        } else if list_node_hash(len, a.merkle_root@) != expected {
            Err(ListProofError::HashMismatch)
        } else {
            Ok(Seq::empty())
        },
        _ => match check(p, height_of(len as nat), 0, len as nat) {
            None => Err(ListProofError::MalformedTree),
            Some(x) => if list_node_hash(len, x.0) == expected {
                Ok(x.1)
            } else {
                Err(ListProofError::HashMismatch)
            },
        },
    }
}

fn append_entries(dst: &mut Vec<(u64, Vec<u8>)>, src: Vec<(u64, Vec<u8>)>)
    ensures
        entries_of(final(dst)@) == entries_of(old(dst)@) + entries_of(src@),
{
    let mut i: usize = 0;
    while i < src.len()
        invariant
            i <= src@.len(),
            entries_of(dst@) =~= entries_of(old(dst)@) + entries_of(src@).subrange(0, i as int),
        decreases src@.len() - i,
    {
        let ghost before = dst@;
        let pos = src[i].0;
        let value = copy_bytes(&src[i].1);
        dst.push((pos, value));
        assert(entries_of(dst@) =~= entries_of(before).push(entries_of(src@)[i as int]));
        i = i + 1;
    }
    assert(entries_of(src@).subrange(0, src@.len() as int) =~= entries_of(src@));
}

impl ListProof {
    /// Recomputes node `i` at height `h` (its first leaf is `lo`; `half` is
    /// the number of leaves under each child).
    fn check_node(&self, h: usize, lo: u64, half: u64, n: u64, Ghost(i): Ghost<nat>) -> (r: Option<
        (Digest, Vec<(u64, Vec<u8>)>),
    >)
        requires
            1 <= h,
            lo as int == i * pow2((h - 1) as nat),
            lo <= n,
            h >= 2 ==> half == pow2((h - 2) as nat),
        ensures
            match r {
                Some(x) => check(*self, h as nat, i, n as nat) == Some((x.0@, entries_of(x.1@))),
                None => check(*self, h as nat, i, n as nat) is None,
            },
        decreases self,
    {
        proof {
            if h >= 2 {
                lemma_pow2_unfold((h - 1) as nat);
                lemma_pow2_pos((h - 2) as nat);
                let q = pow2((h - 2) as nat);
                assert(i * pow2((h - 1) as nat) == (2 * i) * q) by (nonlinear_arith)
                    requires
                        pow2((h - 1) as nat) == 2 * q,
                ;
                assert((2 * i + 1) * q == (2 * i) * q + q) by (nonlinear_arith);
                if h >= 3 {
                    lemma_pow2_unfold((h - 2) as nat);
                }
            } else {
                vstd::arithmetic::power2::lemma2_to64();
            }
        }
        match self {
            ListProof::Leaf(v) => {
                if h == 1 && lo < n {
                    let mut es: Vec<(u64, Vec<u8>)> = Vec::new();
                    es.push((lo, copy_bytes(v)));
                    assert(entries_of(es@) =~= seq![(i as u64, v@)]);
                    Some((hash_leaf(v), es))
                } else {
                    None
                }
            },
            ListProof::Left(sub, right) => {
                if h < 2 {
                    return None;
                }
                let right_exists = half < n - lo;
                match sub.check_node(h - 1, lo, half / 2, n, Ghost(2 * i)) {
                    Some(l) => match right {
                        Some(r) => if right_exists {
                            Some((hash_node(&l.0, r), l.1))
                        } else {
                            None
                        },
                        None => if !right_exists {
                            Some((hash_single_node(&l.0), l.1))
                        } else {
                            None
                        },
                    },
                    None => None,
                }
            },
            ListProof::Right(left, sub) => {
                if h < 2 || half >= n - lo {
                    return None;
                }
                match sub.check_node(h - 1, lo + half, half / 2, n, Ghost(2 * i + 1)) {
                    Some(r) => Some((hash_node(left, &r.0), r.1)),
                    None => None,
                }
            },
            ListProof::Full(a, b) => {
                if h < 2 || half >= n - lo {
                    return None;
                }
                match a.check_node(h - 1, lo, half / 2, n, Ghost(2 * i)) {
                    Some(x) => match b.check_node(h - 1, lo + half, half / 2, n, Ghost(2 * i + 1)) {
                        Some(y) => {
                            let mut es = x.1;
                            append_entries(&mut es, y.1);
                            Some((hash_node(&x.0, &y.0), es))
                        },
                        None => None,
                    },
                    None => None,
                }
            },
            ListProof::Absent(_) => None,
        }
    }

    /// Checks the proof against a list of `len` values with list hash
    /// `expected_list_hash`, and returns the positions and values it covers.
    pub fn validate(&self, expected_list_hash: &Digest, len: u64) -> (r: Result<
        Vec<(u64, Vec<u8>)>,
        ListProofError,
    >)
        ensures
            match r {
                Ok(v) => verify_spec(*self, len, expected_list_hash@) == Ok::<
                    Seq<(u64, Seq<u8>)>,
                    ListProofError,
                >(entries_of(v@)),
                Err(e) => verify_spec(*self, len, expected_list_hash@) == Err::<
                    Seq<(u64, Seq<u8>)>,
                    ListProofError,
                >(e),
            },
    {
        match self {
            ListProof::Absent(a) => {
                if a.length != len {
                    return Err(ListProofError::LengthMismatch);
                }
                let h = hash_list_node(len, &a.merkle_root);
                if h.same_as(expected_list_hash) {
                    let es: Vec<(u64, Vec<u8>)> = Vec::new();
                    assert(entries_of(es@) =~= Seq::<(u64, Seq<u8>)>::empty());
                    Ok(es)
                } else {
                    Err(ListProofError::HashMismatch)
                }
            },
            _ => {
                let height = height_for(len);
                let half = half_width(height, len);
                match self.check_node(height, 0, half, len, Ghost(0)) {
                    None => Err(ListProofError::MalformedTree),
                    Some(x) => {
                        let h = hash_list_node(len, &x.0);
                        if h.same_as(expected_list_hash) {
                            Ok(x.1)
                        } else {
                            Err(ListProofError::HashMismatch)
                        }
                    },
                }
            },
        }
    }
}

/// The number of leaves under each child of the root of a tree of height
/// `height` over `n` values, `2^(height - 2)` (0 for a single height).
pub(crate) fn half_width(height: usize, n: u64) -> (r: u64)
    requires
        height == height_of(n as nat),
    ensures
        height >= 2 ==> r == pow2((height - 2) as nat),
{
    if height < 2 {
        return 0;
    }
    proof {
        lemma_height_bounds(n as nat);
        vstd::arithmetic::power2::lemma2_to64();
    }
    let mut half: u64 = 1;
    let mut k: usize = 2;
    while k < height
        invariant
            2 <= k <= height,
            half == pow2((k - 2) as nat),
            pow2((height - 2) as nat) < n,
        decreases height - k,
    {
        proof {
            lemma_pow2_unfold((k - 1) as nat);
            if k - 1 < height - 2 {
                vstd::arithmetic::power2::lemma_pow2_strictly_increases((k - 1) as nat, (height - 2) as nat);
            }
        }
        half = half * 2;
        k = k + 1;
    }
    half
}

/// A proof built for positions `from..to` under node `i` at height `h`
/// recomputes that node's hash and covers exactly those positions.
proof fn lemma_built_checks(p: ListProof, values: Seq<Seq<u8>>, h: nat, i: nat, from: int, to: int)
    requires
        h >= 1,
        built(p, values, h, i, from, to),
        i * pow2((h - 1) as nat) <= from < to <= values.len(),
        to <= (i + 1) * pow2((h - 1) as nat),
        values.len() <= u64::MAX,
    ensures
        check(p, h, i, values.len()) == Some((level(values, h)[i as int], entries(values, from, to))),
    decreases h,
{
    let n = values.len();
    if h == 1 {
        vstd::arithmetic::power2::lemma2_to64();
        assert(i * 1 == i);
        assert((i + 1) * 1 == i + 1);
        assert(entries(values, from, to) =~= seq![(i as u64, values[i as int])]);
    } else {
        let q = pow2((h - 2) as nat);
        lemma_pow2_unfold((h - 1) as nat);
        lemma_pow2_pos((h - 2) as nat);
        assert(i * pow2((h - 1) as nat) == (2 * i) * q) by (nonlinear_arith)
            requires
                pow2((h - 1) as nat) == 2 * q,
        ;
        assert((2 * i + 1) * q == (2 * i) * q + q) by (nonlinear_arith);
        assert((i + 1) * pow2((h - 1) as nat) == (2 * i + 2) * q) by (nonlinear_arith)
            requires
                pow2((h - 1) as nat) == 2 * q,
        ;
        assert((2 * i + 2) * q == (2 * i + 1) * q + q) by (nonlinear_arith);
        lemma_count_pow2(n, h, i);
        lemma_count_pow2(n, (h - 1) as nat, 2 * i + 1);
        lemma_level_len(values, h);
        lemma_level_len(values, (h - 1) as nat);
        let m = (i * pow2((h - 1) as nat) + q) as int;
        if to <= m {
            lemma_built_checks(
                match p {
                    ListProof::Left(sub, _) => *sub,
                    _ => p,
                },
                values,
                (h - 1) as nat,
                2 * i,
                from,
                to,
            );
        } else if m <= from {
            lemma_built_checks(
                match p {
                    ListProof::Right(_, sub) => *sub,
                    _ => p,
                },
                values,
                (h - 1) as nat,
                2 * i + 1,
                from,
                to,
            );
        } else {
            match p {
                ListProof::Full(a, b) => {
                    lemma_built_checks(*a, values, (h - 1) as nat, 2 * i, from, m);
                    lemma_built_checks(*b, values, (h - 1) as nat, 2 * i + 1, m, to);
                    assert(entries(values, from, m) + entries(values, m, to) =~= entries(
                        values,
                        from,
                        to,
                    ));
                },
                _ => {},
            }
        }
    }
}

/// A range proof that a list gives for `from..to` verifies against the
/// list's length and list hash, and yields exactly the positions `from..to`
/// with their values.
pub proof fn lemma_range_proof_verifies(p: ListProof, values: Seq<Seq<u8>>, from: int, to: int)
    requires
        values.len() <= u64::MAX,
        0 <= from < to <= values.len(),
        built(p, values, height_of(values.len()), 0, from, to),
    ensures
        verify_spec(p, values.len() as u64, list_hash_of(values)) == Ok::<
            Seq<(u64, Seq<u8>)>,
            ListProofError,
        >(entries(values, from, to)),
{
    let n = values.len();
    let h = height_of(n);
    lemma_height_bounds(n);
    assert(0 * pow2((h - 1) as nat) == 0);
    assert((0 + 1) * pow2((h - 1) as nat) == pow2((h - 1) as nat));
    lemma_built_checks(p, values, h, 0, from, to);
    assert(!(p is Absent));
}

/// The proof that a list gives for an existing position verifies against
/// the list's length and list hash, and yields that position with its value.
pub proof fn lemma_proof_verifies(p: ListProof, values: Seq<Seq<u8>>, index: int)
    requires
        values.len() <= u64::MAX,
        0 <= index < values.len(),
        built(p, values, height_of(values.len()), 0, index, index + 1),
    ensures
        verify_spec(p, values.len() as u64, list_hash_of(values)) == Ok::<
            Seq<(u64, Seq<u8>)>,
            ListProofError,
        >(seq![(index as u64, values[index])]),
{
    lemma_range_proof_verifies(p, values, index, index + 1);
    assert(entries(values, index, index + 1) =~= seq![(index as u64, values[index])]);
}

/// A proof of absence carrying a list's length and Merkle root verifies
/// against that list, covering no position.
pub proof fn lemma_absence_verifies(p: ListProof, values: Seq<Seq<u8>>)
    requires
        values.len() <= u64::MAX,
        p matches ListProof::Absent(a) && a.length == values.len() && a.merkle_root@ == merkle_root(
            values,
        ),
    ensures
        verify_spec(p, values.len() as u64, list_hash_of(values)) == Ok::<
            Seq<(u64, Seq<u8>)>,
            ListProofError,
        >(Seq::empty()),
{
}

/// Every position that a proof tree covers under node `i` at height `h`
/// lies within that node's leaves and within the list, in ascending order.
proof fn lemma_check_positions(p: ListProof, h: nat, i: nat, n: nat)
    requires
        n <= u64::MAX,
        check(p, h, i, n) is Some,
    ensures
        ({
            let es = check(p, h, i, n)->Some_0.1;
            &&& forall|k: int|
                0 <= k < es.len() ==> i * pow2((h - 1) as nat) <= (#[trigger] es[k]).0 && es[k].0 < (i + 1)
                    * pow2((h - 1) as nat) && es[k].0 < n
            &&& forall|k1: int, k2: int| 0 <= k1 < k2 < es.len() ==> (#[trigger] es[k1]).0 < (#[trigger] es[k2]).0
        }),
    decreases p,
{
    if h == 1 {
        vstd::arithmetic::power2::lemma2_to64();
        assert(i * 1 == i);
        assert((i + 1) * 1 == i + 1);
    }
    if h >= 2 {
        let q = pow2((h - 2) as nat);
        lemma_pow2_unfold((h - 1) as nat);
        assert(i * pow2((h - 1) as nat) == (2 * i) * q) by (nonlinear_arith)
            requires
                pow2((h - 1) as nat) == 2 * q,
        ;
        assert((i + 1) * pow2((h - 1) as nat) == (2 * i + 2) * q) by (nonlinear_arith)
            requires
                pow2((h - 1) as nat) == 2 * q,
        ;
        assert((2 * i + 1 + 1) * q == (2 * i + 2) * q);
        match p {
            ListProof::Left(sub, _) => {
                lemma_check_positions(*sub, (h - 1) as nat, 2 * i, n);
                assert((2 * i + 1) * q <= (2 * i + 2) * q) by (nonlinear_arith);
            },
            ListProof::Right(_, sub) => {
                lemma_check_positions(*sub, (h - 1) as nat, 2 * i + 1, n);
                assert((2 * i) * q <= (2 * i + 1) * q) by (nonlinear_arith);
            },
            ListProof::Full(a, b) => {
                lemma_check_positions(*a, (h - 1) as nat, 2 * i, n);
                lemma_check_positions(*b, (h - 1) as nat, 2 * i + 1, n);
                assert((2 * i) * q <= (2 * i + 1) * q) by (nonlinear_arith);
                assert((2 * i + 1) * q <= (2 * i + 2) * q) by (nonlinear_arith);
            },
            _ => {},
        }
    }
}

/// A proof that verifies yields positions within the list, each once, in
/// ascending order.
pub proof fn lemma_verified_positions_ascend(p: ListProof, len: u64, expected: Seq<u8>)
    requires
        verify_spec(p, len, expected) is Ok,
    ensures
        ({
            let es = verify_spec(p, len, expected)->Ok_0;
            &&& forall|k: int| 0 <= k < es.len() ==> (#[trigger] es[k]).0 < len
            &&& forall|k1: int, k2: int| 0 <= k1 < k2 < es.len() ==> (#[trigger] es[k1]).0 < (#[trigger] es[k2]).0
        }),
{
    if !(p is Absent) {
        lemma_check_positions(p, height_of(len as nat), 0, len as nat);
    }
}

} // verus!
