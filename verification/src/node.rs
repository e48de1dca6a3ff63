//! Plain-value forms of the identifiers that flow through the blob store:
//! block header hashes, node hashes, and in-snapshot pointers.
//!
//! The encoding of trie nodes themselves is out of scope here: node records
//! are consumed as opaque byte ranges, addressed by a snapshot identifier
//! plus an in-snapshot pointer.

use vstd::prelude::*;

verus! {

/// Number of bytes in a serialized trie-node hash.
pub const TRIEHASH_ENCODED_SIZE: usize = 32;

/// Number of bytes in a serialized block header hash.
pub const BLOCK_HEADER_HASH_ENCODED_SIZE: usize = 32;

/// Hash of one trie node, as read back from the blob log.
#[derive(Debug)]
pub struct TrieHash(pub Vec<u8>);

impl View for TrieHash {
    type V = Seq<u8>;

    open spec fn view(&self) -> Seq<u8> {
        self.0@
    }
}

/// Hash naming a snapshot externally (the hash of the block whose trie it is).
#[derive(Debug)]
pub struct BlockHeaderHash(pub Vec<u8>);

impl View for BlockHeaderHash {
    type V = Seq<u8>;

    open spec fn view(&self) -> Seq<u8> {
        self.0@
    }
}

impl BlockHeaderHash {
    /// A byte-for-byte copy of this hash.
    pub fn duplicate(&self) -> (r: BlockHeaderHash)
        ensures
            r@ == self@,
    {
        BlockHeaderHash(copy_bytes(&self.0))
    }
}

/// A heap copy of a byte vector.
pub fn copy_bytes(v: &Vec<u8>) -> (r: Vec<u8>)
    ensures
        r@ == v@,
{
    let mut r: Vec<u8> = Vec::new();
    let mut i: usize = 0;
    while i < v.len()
        invariant
            i <= v@.len(),
            r@ == v@.subrange(0, i as int),
        decreases v@.len() - i,
    {
        r.push(v[i]);
        i = i + 1;
        proof {
            assert(r@ =~= v@.subrange(0, i as int));
        }
    }
    proof {
        assert(r@ =~= v@);
    }
    r
}

/// Report whether two byte vectors hold the same bytes.
pub fn bytes_eq(a: &Vec<u8>, b: &Vec<u8>) -> (r: bool)
    ensures
        r == (a@ == b@),
{
    if a.len() != b.len() {
        return false;
    }
    let mut i: usize = 0;
    while i < a.len()
        invariant
            a@.len() == b@.len(),
            i <= a@.len(),
            forall|j: int| 0 <= j < i ==> a@[j] == b@[j],
        decreases a@.len() - i,
    {
        if a[i] != b[i] {
            return false;
        }
        i = i + 1;
    }
    proof {
        assert(a@ =~= b@);
    }
    true
}

/// Lexicographic order on byte strings, as the metadata store compares
/// blob keys: a prefix sorts before its extensions, otherwise the first
/// differing byte decides.
pub open spec fn bytes_le(a: Seq<u8>, b: Seq<u8>) -> bool
    decreases a.len(),
{
    if a.len() == 0 {
        true
    } else if b.len() == 0 {
        false
    } else if a[0] < b[0] {
        true
    } else if a[0] > b[0] {
        false
    } else {
        bytes_le(a.drop_first(), b.drop_first())
    }
}

/// Lexicographic order is total.
pub proof fn lemma_bytes_le_total(a: Seq<u8>, b: Seq<u8>)
    ensures
        bytes_le(a, b) || bytes_le(b, a),
    decreases a.len(),
{
    if a.len() > 0 && b.len() > 0 && a[0] == b[0] {
        lemma_bytes_le_total(a.drop_first(), b.drop_first());
    }
}

/// Lexicographic order is transitive.
pub proof fn lemma_bytes_le_trans(a: Seq<u8>, b: Seq<u8>, c: Seq<u8>)
    requires
        bytes_le(a, b),
        bytes_le(b, c),
    ensures
        bytes_le(a, c),
    decreases a.len(),
{
    if a.len() > 0 && b.len() > 0 && c.len() > 0 && a[0] == b[0] && b[0] == c[0] {
        lemma_bytes_le_trans(a.drop_first(), b.drop_first(), c.drop_first());
    }
}

/// Does `a` sort at or before `b` in lexicographic byte order?
pub fn bytes_le_exec(a: &Vec<u8>, b: &Vec<u8>) -> (r: bool)
    ensures
        r == bytes_le(a@, b@),
{
    proof {
        assert(a@.skip(0) =~= a@);
        assert(b@.skip(0) =~= b@);
    }
    let mut i: usize = 0;
    while i < a.len() && i < b.len()
        invariant
            i <= a@.len(),
            i <= b@.len(),
            bytes_le(a@, b@) == bytes_le(a@.skip(i as int), b@.skip(i as int)),
        decreases a@.len() - i,
    {
        if a[i] < b[i] {
            proof {
                assert(a@.skip(i as int)[0] == a@[i as int]);
                assert(b@.skip(i as int)[0] == b@[i as int]);
            }
            return true;
        }
        if a[i] > b[i] {
            proof {
                assert(a@.skip(i as int)[0] == a@[i as int]);
                assert(b@.skip(i as int)[0] == b@[i as int]);
            }
            return false;
        }
        proof {
            assert(a@.skip(i as int)[0] == a@[i as int]);
            assert(b@.skip(i as int)[0] == b@[i as int]);
            assert(a@.skip(i as int).drop_first() =~= a@.skip(i as int + 1));
            assert(b@.skip(i as int).drop_first() =~= b@.skip(i as int + 1));
        }
        i = i + 1;
    }
    proof {
        if i == a@.len() {
            assert(a@.skip(i as int).len() == 0);
        } else {
            assert(b@.skip(i as int).len() == 0);
            assert(a@.skip(i as int).len() > 0);
        }
    }
    a.len() <= b.len()
}

/// Pointer to one node inside a snapshot: a node-type tag, the path byte the
/// node was reached by, and a byte offset relative to the snapshot's start.
/// It is meaningful only in combination with its snapshot's base offset.
#[derive(Clone, Copy, Debug, PartialEq, Eq, Structural)]
pub struct TriePtr {
    pub id: u8,
    pub chr: u8,
    pub ptr: u32,
}

impl TriePtr {
    pub fn new(id: u8, chr: u8, ptr: u32) -> (r: TriePtr)
        ensures
            r.id == id,
            r.chr == chr,
            r.ptr == ptr,
    {
        TriePtr { id, chr, ptr }
    }

    /// The node-type tag embedded in this pointer.
    pub fn id(&self) -> (r: u8)
        ensures
            r == self.id,
    {
        self.id
    }

    /// The relative byte offset of the node inside its snapshot.
    pub fn ptr(&self) -> (r: u32)
        ensures
            r == self.ptr,
    {
        self.ptr
    }
}

/// One node record pulled from a snapshot: the type tag from the pointer that
/// addressed it, and the opaque serialized bytes of the node region.  Decoding
/// the bytes is the trie layer's concern, not this store's.
#[derive(Debug)]
pub struct TrieNodeType {
    pub id: u8,
    pub bytes: Vec<u8>,
}

} // verus!
