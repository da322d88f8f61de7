//! The mathematical model of a Merkelized list: the hashes at each height,
//! how many there are, the height of the tree and its root.

use vstd::prelude::*;
use vstd::arithmetic::power2::{pow2, lemma_pow2_unfold, lemma_pow2_strictly_increases, lemma2_to64_rest};
use crate::hash::{
    leaf_hash, node_hash, single_node_hash, list_node_hash, zero_hash, empty_list_hash_spec,
};

verus! {

/// The hashes at height 1: one leaf hash per value.
pub open spec fn leaf_level(values: Seq<Seq<u8>>) -> Seq<Seq<u8>> {
    Seq::new(values.len(), |i: int| leaf_hash(values[i]))
}

/// The hashes one height above `s`: node `i` combines `s[2i]` with `s[2i + 1]`,
/// or hashes `s[2i]` alone where the right child lies beyond the list.
pub open spec fn parent_level(s: Seq<Seq<u8>>) -> Seq<Seq<u8>> {
    Seq::new(
        ((s.len() + 1) / 2) as nat,
        |i: int|
            if 2 * i + 1 < s.len() {
                node_hash(s[2 * i], s[2 * i + 1])
            } else {
                single_node_hash(s[2 * i])
            },
    )
}

/// The hashes at height `h` (height 1 holds the leaf hashes).
pub open spec fn level(values: Seq<Seq<u8>>, h: nat) -> Seq<Seq<u8>>
    decreases h,
{
    if h <= 1 {
        leaf_level(values)
    } else {
        parent_level(level(values, (h - 1) as nat))
    }
}

/// How many nodes a list of `n` values has at height `h`.
pub open spec fn count_at(n: nat, h: nat) -> nat
    decreases h,
{
    if h <= 1 {
        n
    } else {
        (count_at(n, (h - 1) as nat) + 1) / 2
    }
}

/// The height of the tree over `n` values: 1 for at most one value,
/// otherwise one more than the tree over half as many (rounded up).
pub open spec fn height_of(n: nat) -> nat
    decreases n,
{
    if n <= 1 {
        1
    } else {
        1 + height_of((n + 1) / 2)
    }
}

/// The Merkle root: the single node at the top height, or the all-zero
/// digest for an empty list.
pub open spec fn merkle_root(values: Seq<Seq<u8>>) -> Seq<u8> {
    if values.len() == 0 {
        zero_hash()
    } else {
        level(values, height_of(values.len()))[0]
    }
}

/// The list hash, which binds the length to the Merkle root.
pub open spec fn list_hash_of(values: Seq<Seq<u8>>) -> Seq<u8> {
    list_node_hash(values.len() as u64, merkle_root(values))
}

/// The index, at height `k + 1`, of the node above leaf `pos`.
pub open spec fn path_at(pos: nat, k: nat) -> nat
    decreases k,
{
    if k == 0 {
        pos
    } else {
        path_at(pos, (k - 1) as nat) / 2
    }
}

pub proof fn lemma_level_len(values: Seq<Seq<u8>>, h: nat)
    ensures
        level(values, h).len() == count_at(values.len(), h),
    decreases h,
{
    if h > 1 {
        lemma_level_len(values, (h - 1) as nat);
    }
}

pub proof fn lemma_count_shift(n: nat, h: nat)
    requires
        h >= 2,
    ensures
        count_at(n, h) == count_at((n + 1) / 2, (h - 1) as nat),
    decreases h,
{
    let m = (n + 1) / 2;
    if h > 2 {
        lemma_count_shift(n, (h - 1) as nat);
        assert(count_at(m, (h - 1) as nat) == (count_at(m, (h - 2) as nat) + 1) / 2);
    } else {
        assert(count_at(n, 1) == n);
        assert(count_at(m, 1) == m);
    }
}

/// A non-empty list has exactly one node at the top height.
pub proof fn lemma_root_count(n: nat)
    requires
        n >= 1,
    ensures
        count_at(n, height_of(n)) == 1,
    decreases n,
{
    if n > 1 {
        let m = (n + 1) / 2;
        lemma_root_count(m);
        lemma_count_shift(n, height_of(n));
    }
}

/// Appending a value raises the height by at most one.
pub proof fn lemma_height_step(n: nat)
    ensures
        height_of(n + 1) == height_of(n) || height_of(n + 1) == height_of(n) + 1,
    decreases n,
{
    if n >= 2 {
        lemma_height_step((n + 1) / 2);
    }
}

/// After appending at position `n`, the count at each height is one past the
/// path index of the new leaf, and the old count is that index or one more.
pub proof fn lemma_push_count(n: nat, k: nat)
    ensures
        count_at(n + 1, k + 1) == path_at(n, k) + 1,
        count_at(n, k + 1) == path_at(n, k) || count_at(n, k + 1) == path_at(n, k) + 1,
    decreases k,
{
    if k > 0 {
        lemma_push_count(n, (k - 1) as nat);
    }
}

/// The path of an existing position stays within the nodes of each height.
pub proof fn lemma_path_in_range(n: nat, pos: nat, k: nat)
    requires
        pos < n,
    ensures
        path_at(pos, k) < count_at(n, k + 1),
    decreases k,
{
    if k > 0 {
        lemma_path_in_range(n, pos, (k - 1) as nat);
    }
}

/// Changing the value at `pos`, or appending at `pos`, leaves every node off
/// the path of `pos` as it was.
pub proof fn lemma_level_local(a: Seq<Seq<u8>>, b: Seq<Seq<u8>>, pos: nat, h: nat)
    requires
        h >= 1,
        (b.len() == a.len() && pos < a.len()) || (b.len() == a.len() + 1 && pos == a.len()),
        forall|i: int| 0 <= i < a.len() && i != pos ==> a[i] == b[i],
    ensures
        forall|j: int|
            0 <= j < count_at(a.len(), h) && j < count_at(b.len(), h) && j != path_at(
                pos,
                (h - 1) as nat,
            ) ==> #[trigger] level(a, h)[j] == level(b, h)[j],
    decreases h,
{
    lemma_level_len(a, h);
    lemma_level_len(b, h);
    if h > 1 {
        let g = (h - 1) as nat;
        lemma_level_local(a, b, pos, g);
        lemma_level_len(a, g);
        lemma_level_len(b, g);
        if b.len() == a.len() + 1 {
            lemma_push_count(a.len(), (g - 1) as nat);
        }
        assert forall|j: int|
            0 <= j < count_at(a.len(), h) && j < count_at(b.len(), h) && j != path_at(
                pos,
                (h - 1) as nat,
            ) implies #[trigger] level(a, h)[j] == level(b, h)[j] by {
            let p = path_at(pos, (g - 1) as nat);
            assert(path_at(pos, (h - 1) as nat) == p / 2);
            assert(level(a, g)[2 * j] == level(b, g)[2 * j]);
            if 2 * j + 1 < count_at(a.len(), g) && 2 * j + 1 < count_at(b.len(), g) {
                assert(level(a, g)[2 * j + 1] == level(b, g)[2 * j + 1]);
            }
        }
    }
}

/// Node `j` exists at height `h` exactly when its first leaf lies within
/// the list.
pub proof fn lemma_count_pow2(n: nat, h: nat, j: nat)
    requires
        h >= 1,
    ensures
        (j < count_at(n, h)) == (j * pow2((h - 1) as nat) < n),
    decreases h,
{
    if h == 1 {
        vstd::arithmetic::power2::lemma2_to64();
        assert(count_at(n, 1) == n);
        assert(j * 1 == j);
    } else {
        assert(count_at(n, h) == (count_at(n, (h - 1) as nat) + 1) / 2);
        lemma_count_pow2(n, (h - 1) as nat, 2 * j);
        lemma_pow2_unfold((h - 1) as nat);
        let q = pow2((h - 2) as nat);
        assert(j * pow2((h - 1) as nat) == (2 * j) * q) by (nonlinear_arith)
            requires
                pow2((h - 1) as nat) == 2 * q,
        ;
    }
}

/// Bounds of the height: the leaves fit under the top node, and (above a
/// single leaf) not under a node one height lower.
pub proof fn lemma_height_bounds(n: nat)
    requires
        n >= 1,
    ensures
        pow2((height_of(n) - 1) as nat) >= n,
        height_of(n) >= 2 ==> pow2((height_of(n) - 2) as nat) < n,
    decreases n,
{
    if n > 1 {
        let m = (n + 1) / 2;
        lemma_height_bounds(m);
        let hm = height_of(m);
        lemma_pow2_unfold(hm);
        if hm >= 2 {
            lemma_pow2_unfold((hm - 1) as nat);
        } else {
            assert(pow2(0) == 1) by {
                vstd::arithmetic::power2::lemma2_to64();
            }
        }
    } else {
        assert(pow2(0) == 1) by {
            vstd::arithmetic::power2::lemma2_to64();
        }
    }
}

/// A list of at most `u64::MAX` values has a height of at most 65.
pub proof fn lemma_height_max(n: nat)
    requires
        n <= u64::MAX,
    ensures
        1 <= height_of(n) <= 65,
    decreases n,
{
    if n >= 2 {
        lemma_height_max((n + 1) / 2);
    }
    if n >= 1 && height_of(n) > 65 {
        lemma_height_bounds(n);
        lemma2_to64_rest();
        if height_of(n) > 66 {
            lemma_pow2_strictly_increases(64, (height_of(n) - 2) as nat);
        }
    }
}

/// The values after pushing each of `vs`, in order, onto `start`.
pub open spec fn push_all(start: Seq<Seq<u8>>, vs: Seq<Seq<u8>>) -> Seq<Seq<u8>>
    decreases vs.len(),
{
    if vs.len() == 0 {
        start
    } else {
        push_all(start, vs.drop_last()).push(vs.last())
    }
}

/// After pushing `vs` one by one onto an empty list, position `i` holds
/// `vs[i]` and the last value is the last one pushed.
pub proof fn lemma_pushes_in_order(vs: Seq<Seq<u8>>)
    ensures
        push_all(Seq::empty(), vs) == vs,
        forall|i: int| 0 <= i < vs.len() ==> #[trigger] push_all(Seq::empty(), vs)[i] == vs[i],
        vs.len() > 0 ==> push_all(Seq::empty(), vs).last() == vs.last(),
    decreases vs.len(),
{
    if vs.len() > 0 {
        lemma_pushes_in_order(vs.drop_last());
        assert(vs.drop_last().push(vs.last()) =~= vs);
    }
}

/// Pushing values one by one and appending them all at once to a fresh
/// list give the same list hash.
pub proof fn lemma_incremental_matches_bulk(vs: Seq<Seq<u8>>)
    ensures
        list_hash_of(push_all(Seq::empty(), vs)) == list_hash_of(Seq::<Seq<u8>>::empty() + vs),
{
    lemma_pushes_in_order(vs);
    assert(Seq::<Seq<u8>>::empty() + vs =~= vs);
}

/// The height of a list of `2^k` values is `k + 1`, that is
/// `floor(log2(n)) + 1`; an empty list has height 1.
pub proof fn lemma_height_of_power_of_two(k: nat)
    ensures
        height_of(pow2(k)) == k + 1,
        height_of(0) == 1,
    decreases k,
{
    vstd::arithmetic::power2::lemma2_to64();
    if k > 0 {
        lemma_height_of_power_of_two((k - 1) as nat);
        lemma_pow2_unfold(k);
        vstd::arithmetic::power2::lemma_pow2_pos((k - 1) as nat);
        assert((pow2(k) + 1) / 2 == pow2((k - 1) as nat));
    }
}

/// The list hash of an empty list is the fixed empty list hash.
pub proof fn lemma_empty_list_hash()
    ensures
        list_hash_of(Seq::empty()) == empty_list_hash_spec(),
{
}

/// Setting a position to a value twice in a row leaves the list hash as the
/// first setting made it.
pub proof fn lemma_set_twice(values: Seq<Seq<u8>>, i: int, v: Seq<u8>)
    requires
        0 <= i < values.len(),
    ensures
        list_hash_of(values.update(i, v).update(i, v)) == list_hash_of(values.update(i, v)),
{
    assert(values.update(i, v).update(i, v) =~= values.update(i, v));
}

} // verus!
