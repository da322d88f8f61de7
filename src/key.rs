//! Node coordinates of the tree: a height and an index at that height, with
//! the tree's geometry and the nine-byte key that orders nodes by height,
//! then by index.

use vstd::prelude::*;
use vstd::arithmetic::power2::{pow2, lemma_pow2_unfold};
use crate::hash::be_bytes;

verus! {

/// A node of the tree: height 0 for stored values, 1 for leaf hashes, and
/// above that the branches.
#[derive(Debug, Clone, Copy, PartialEq, Eq, Structural)]
pub struct ProofListKey {
    height: u8,
    index: u64,
}

impl ProofListKey {
    pub closed spec fn spec_height(&self) -> nat {
        self.height as nat
    }

    pub closed spec fn spec_index(&self) -> nat {
        self.index as nat
    }

    /// The node at `height` and `index`.
    pub fn new(height: u8, index: u64) -> (r: Self)
        ensures
            r.spec_height() == height,
            r.spec_index() == index,
    {
        ProofListKey { height, index }
    }

    /// The stored value at position `index`.
    pub fn leaf(index: u64) -> (r: Self)
        ensures
            r.spec_height() == 0,
            r.spec_index() == index,
    {
        ProofListKey { height: 0, index }
    }

    pub fn height(&self) -> (r: u8)
        ensures
            r == self.spec_height(),
    {
        self.height
    }

    pub fn index(&self) -> (r: u64)
        ensures
            r == self.spec_index(),
    {
        self.index
    }

    /// The left child, one height lower.
    pub fn left(&self) -> (r: Self)
        requires
            self.spec_height() >= 1,
            2 * self.spec_index() <= u64::MAX,
        ensures
            r.spec_height() == self.spec_height() - 1,
            r.spec_index() == 2 * self.spec_index(),
    {
        ProofListKey { height: self.height - 1, index: 2 * self.index }
    }

    /// The right child, one height lower.
    pub fn right(&self) -> (r: Self)
        requires
            self.spec_height() >= 1,
            2 * self.spec_index() + 1 <= u64::MAX,
        ensures
            r.spec_height() == self.spec_height() - 1,
            r.spec_index() == 2 * self.spec_index() + 1,
    {
        ProofListKey { height: self.height - 1, index: 2 * self.index + 1 }
    }

    /// The parent, one height higher.
    pub fn parent(&self) -> (r: Self)
        requires
            self.spec_height() < 255,
        ensures
            r.spec_height() == self.spec_height() + 1,
            r.spec_index() == self.spec_index() / 2,
    {
        ProofListKey { height: self.height + 1, index: self.index / 2 }
    }

    /// Whether the node is the left child of its parent.
    pub fn is_left(&self) -> (r: bool)
        ensures
            r == (self.spec_index() % 2 == 0),
    {
        self.index % 2 == 0
    }

    /// The left node of the pair this node belongs to.
    pub fn as_left(&self) -> (r: Self)
        ensures
            r.spec_height() == self.spec_height(),
            r.spec_index() == self.spec_index() - self.spec_index() % 2,
    {
        ProofListKey { height: self.height, index: self.index - self.index % 2 }
    }

    /// The right node of the pair this node belongs to.
    pub fn as_right(&self) -> (r: Self)
        ensures
            r.spec_height() == self.spec_height(),
            r.spec_index() == self.spec_index() - self.spec_index() % 2 + 1,
    {
        ProofListKey { height: self.height, index: self.index - self.index % 2 + 1 }
    }

    /// The position of the first value under a node of height 1 or more:
    /// `index * 2^(height - 1)`.
    pub fn first_left_leaf_index(&self) -> (r: u64)
        requires
            self.spec_height() >= 1,
            self.spec_index() * pow2((self.spec_height() - 1) as nat) <= u64::MAX,
        ensures
            r == self.spec_index() * pow2((self.spec_height() - 1) as nat),
    {
        let ghost i = self.spec_index();
        let ghost e = (self.spec_height() - 1) as nat;
        proof {
            vstd::arithmetic::power2::lemma2_to64();
            assert(i * 1 == i);
        }
        let mut r: u64 = self.index;
        let mut k: u8 = 1;
        while k < self.height
            invariant
                1 <= k <= self.height,
                r == i * pow2((k - 1) as nat),
                i * pow2(e) <= u64::MAX,
                e == self.height - 1,
            decreases self.height - k,
        {
            proof {
                lemma_pow2_unfold(k as nat);
                let p = pow2((k - 1) as nat);
                if (k as nat) < e {
                    vstd::arithmetic::power2::lemma_pow2_strictly_increases(k as nat, e);
                }
                assert(i * pow2(k as nat) == 2 * (i * p)) by (nonlinear_arith)
                    requires
                        pow2(k as nat) == 2 * p,
                ;
                assert(i * pow2(k as nat) <= i * pow2(e)) by (nonlinear_arith)
                    requires
                        pow2(k as nat) <= pow2(e),
                ;
            }
            r = 2 * r;
            k = k + 1;
        }
        r
    }

    /// The position of the first value under the right child of a node of
    /// height 2 or more: `index * 2^(height - 1) + 2^(height - 2)`.
    pub fn first_right_leaf_index(&self) -> (r: u64)
        requires
            self.spec_height() >= 2,
            self.spec_index() * pow2((self.spec_height() - 1) as nat) + pow2(
                (self.spec_height() - 2) as nat,
            ) <= u64::MAX,
        ensures
            r == self.spec_index() * pow2((self.spec_height() - 1) as nat) + pow2(
                (self.spec_height() - 2) as nat,
            ),
    {
        let lo = self.first_left_leaf_index();
        let half = ProofListKey { height: self.height - 1, index: 1 }.first_left_leaf_index();
        proof {
            assert(1 * pow2((self.spec_height() - 2) as nat) == pow2((self.spec_height() - 2) as nat));
        }
        lo + half
    }

    /// The nine-byte key: the height, then the index in big-endian order.
    pub fn to_bytes(&self) -> (r: Vec<u8>)
        ensures
            r@ == seq![self.spec_height() as u8] + be_bytes(self.spec_index() as u64),
    {
        let x = self.index;
        let mut r: Vec<u8> = Vec::new();
        r.push(self.height);
        r.push((x >> 56u64) as u8);
        r.push((x >> 48u64) as u8);
        r.push((x >> 40u64) as u8);
        r.push((x >> 32u64) as u8);
        r.push((x >> 24u64) as u8);
        r.push((x >> 16u64) as u8);
        r.push((x >> 8u64) as u8);
        r.push(x as u8);
        assert(r@ =~= seq![self.spec_height() as u8] + be_bytes(self.spec_index() as u64));
        r
    }
}

} // verus!
