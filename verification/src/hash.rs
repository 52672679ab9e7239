//! Block and transaction hashes.

use vstd::prelude::*;

verus! {

/// A 256-bit hash. The first eight bytes of a block's hash hold the block's number.
#[derive(Clone, Copy, Debug)]
pub struct H256 {
    bytes: [u8; 32],
}

impl View for H256 {
    type V = Seq<u8>;

    closed spec fn view(&self) -> Seq<u8> {
        self.bytes@
    }
}

impl H256 {
    /// The hash that consists of these bytes.
    pub fn new(bytes: [u8; 32]) -> (hash: H256)
        ensures
            hash@ == bytes@,
    {
        H256 { bytes }
    }

    /// The hash that a key or value holds as 32 bytes.
    pub fn from_slice(src: &[u8]) -> (hash: H256)
        requires
            src@.len() == 32,
        ensures
            hash@ == src@,
    {
        let mut bytes: [u8; 32] = [0u8; 32];
        let mut i: usize = 0;
        while i < 32
            invariant
                i <= 32,
                src@.len() == 32,
                forall|j: int| 0 <= j < i ==> bytes@[j] == src@[j],
            decreases 32 - i,
        {
            bytes[i] = src[i];
            i += 1;
        }
        assert(bytes@ =~= src@);
        H256 { bytes }
    }

    /// The bytes of the hash.
    pub fn as_bytes(&self) -> (bytes: &[u8])
        ensures
            bytes@ == self@,
    {
        &self.bytes
    }
}

/// A hash has 32 bytes.
pub broadcast proof fn lemma_hash_len(hash: H256)
    ensures
        (#[trigger] hash@).len() == 32,
{
}

} // verus!
