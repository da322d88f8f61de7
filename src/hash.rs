//! Domain-separated hashing of list leaves, branches and the list itself.

use vstd::prelude::*;

verus! {

/// The SHA-256 digest of a byte string.
pub uninterp spec fn sha256(data: Seq<u8>) -> Seq<u8>;

/// Relies on sha2::Sha256's `Digest::digest`: the SHA-256 digest of `data`.
#[verifier::external_body]
fn digest(data: &Vec<u8>) -> (r: Vec<u8>)
    ensures
        r@ == sha256(data@),
{
    <sha2::Sha256 as sha2::Digest>::digest(data.as_slice()).to_vec()
}

/// Tag of a hashed leaf value.
pub const TAG_BLOB: u8 = 0;

/// Tag of a list branch, with one or two children.
pub const TAG_LIST_BRANCH: u8 = 1;

/// Tag of the list hash, which binds the length to the Merkle root.
pub const TAG_LIST: u8 = 2;

/// Number of bytes in a digest.
pub const HASH_SIZE: usize = 32;

/// A 256-bit digest.
#[derive(Debug)]
pub struct Digest {
    pub bytes: Vec<u8>,
}

impl View for Digest {
    type V = Seq<u8>;

    open spec fn view(&self) -> Seq<u8> {
        self.bytes@
    }
}

pub open spec fn leaf_hash(value: Seq<u8>) -> Seq<u8> {
    sha256(seq![TAG_BLOB] + value)
}

pub open spec fn node_hash(left: Seq<u8>, right: Seq<u8>) -> Seq<u8> {
    sha256(seq![TAG_LIST_BRANCH] + left + right)
}

pub open spec fn single_node_hash(left: Seq<u8>) -> Seq<u8> {
    sha256(seq![TAG_LIST_BRANCH] + left)
}

/// The eight big-endian bytes of `x`.
pub open spec fn be_bytes(x: u64) -> Seq<u8> {
    seq![
        (x >> 56u64) as u8,
        (x >> 48u64) as u8,
        (x >> 40u64) as u8,
        (x >> 32u64) as u8,
        (x >> 24u64) as u8,
        (x >> 16u64) as u8,
        (x >> 8u64) as u8,
        x as u8,
    ]
}

pub open spec fn list_node_hash(len: u64, root: Seq<u8>) -> Seq<u8> {
    sha256(seq![TAG_LIST] + be_bytes(len) + root)
}

/// The all-zero digest, the Merkle root of an empty list.
pub open spec fn zero_hash() -> Seq<u8> {
    Seq::new(HASH_SIZE as nat, |i: int| 0u8)
}

pub open spec fn empty_list_hash_spec() -> Seq<u8> {
    list_node_hash(0, zero_hash())
}

/// Appends the bytes of `src` to `buf`.
pub(crate) fn append_bytes(buf: &mut Vec<u8>, src: &Vec<u8>)
    ensures
        final(buf)@ == old(buf)@ + src@,
{
    let mut i: usize = 0;
    while i < src.len()
        invariant
            i <= src@.len(),
            buf@ == old(buf)@ + src@.subrange(0, i as int),
        decreases src@.len() - i,
    {
        buf.push(src[i]);
        i = i + 1;
        assert(src@.subrange(0, i as int) =~= src@.subrange(0, i - 1) + seq![src@[i - 1]]);
    }
    assert(src@.subrange(0, src@.len() as int) =~= src@);
}

/// A copy of a byte string.
pub(crate) fn copy_bytes(src: &Vec<u8>) -> (r: Vec<u8>)
    ensures
        r@ == src@,
{
    let mut r: Vec<u8> = Vec::new();
    append_bytes(&mut r, src);
    r
}

impl Digest {
    /// The all-zero digest.
    pub fn zero() -> (r: Digest)
        ensures
            r@ == zero_hash(),
    {
        let mut bytes: Vec<u8> = Vec::new();
        let mut i: usize = 0;
        while i < HASH_SIZE
            invariant
                i <= HASH_SIZE,
                bytes@ =~= Seq::new(i as nat, |k: int| 0u8),
            decreases HASH_SIZE - i,
        {
            bytes.push(0u8);
            i = i + 1;
        }
        Digest { bytes }
    }

    /// Wraps raw digest bytes.
    pub fn from_bytes(bytes: Vec<u8>) -> (r: Digest)
        ensures
            r@ == bytes@,
    {
        Digest { bytes }
    }

    /// A copy of the digest.
    pub fn duplicate(&self) -> (r: Digest)
        ensures
            r@ == self@,
    {
        let mut bytes: Vec<u8> = Vec::new();
        append_bytes(&mut bytes, &self.bytes);
        Digest { bytes }
    }

    /// Compares two digests byte by byte.
    pub fn same_as(&self, other: &Digest) -> (r: bool)
        ensures
            r == (self@ == other@),
    {
        if self.bytes.len() != other.bytes.len() {
            return false;
        }
        let mut i: usize = 0;
        while i < self.bytes.len()
            invariant
                i <= self@.len(),
                self@.len() == other@.len(),
                forall|k: int| 0 <= k < i ==> self@[k] == other@[k],
            decreases self@.len() - i,
        {
            if self.bytes[i] != other.bytes[i] {
                return false;
            }
            i = i + 1;
        }
        assert(self@ =~= other@);
        true
    }
}

impl PartialEq for Digest {
    fn eq(&self, other: &Digest) -> (r: bool) {
        self.same_as(other)
    }
}

impl vstd::std_specs::cmp::PartialEqSpecImpl for Digest {
    open spec fn obeys_eq_spec() -> bool {
        true
    }

    open spec fn eq_spec(&self, other: &Digest) -> bool {
        self@ == other@
    }
}

/// Digest of a leaf value: `H(TAG_BLOB ‖ value)`.
pub fn hash_leaf(value: &Vec<u8>) -> (r: Digest)
    ensures
        r@ == leaf_hash(value@),
{
    let mut buf: Vec<u8> = Vec::new();
    buf.push(TAG_BLOB);
    append_bytes(&mut buf, value);
    assert(buf@ =~= seq![TAG_BLOB] + value@);
    Digest { bytes: digest(&buf) }
}

/// Digest of a branch with two children: `H(TAG_LIST_BRANCH ‖ left ‖ right)`.
pub fn hash_node(left: &Digest, right: &Digest) -> (r: Digest)
    ensures
        r@ == node_hash(left@, right@),
{
    let mut buf: Vec<u8> = Vec::new();
    buf.push(TAG_LIST_BRANCH);
    append_bytes(&mut buf, &left.bytes);
    append_bytes(&mut buf, &right.bytes);
    assert(buf@ =~= seq![TAG_LIST_BRANCH] + left@ + right@);
    Digest { bytes: digest(&buf) }
}

/// Digest of a branch whose right child is absent: `H(TAG_LIST_BRANCH ‖ left)`.
pub fn hash_single_node(left: &Digest) -> (r: Digest)
    ensures
        r@ == single_node_hash(left@),
{
    let mut buf: Vec<u8> = Vec::new();
    buf.push(TAG_LIST_BRANCH);
    append_bytes(&mut buf, &left.bytes);
    assert(buf@ =~= seq![TAG_LIST_BRANCH] + left@);
    Digest { bytes: digest(&buf) }
}

/// The list hash: `H(TAG_LIST ‖ big_endian(len) ‖ root)`.
pub fn hash_list_node(len: u64, root: &Digest) -> (r: Digest)
    ensures
        r@ == list_node_hash(len, root@),
{
    let mut buf: Vec<u8> = Vec::new();
    buf.push(TAG_LIST);
    buf.push((len >> 56u64) as u8);
    buf.push((len >> 48u64) as u8);
    buf.push((len >> 40u64) as u8);
    buf.push((len >> 32u64) as u8);
    buf.push((len >> 24u64) as u8);
    buf.push((len >> 16u64) as u8);
    buf.push((len >> 8u64) as u8);
    buf.push(len as u8);
    append_bytes(&mut buf, &root.bytes);
    assert(buf@ =~= seq![TAG_LIST] + be_bytes(len) + root@);
    Digest { bytes: digest(&buf) }
}

/// The list hash of an empty list: length zero over the all-zero root.
pub fn empty_list_hash() -> (r: Digest)
    ensures
        r@ == empty_list_hash_spec(),
{
    let zero = Digest::zero();
    hash_list_node(0, &zero)
}

} // verus!
