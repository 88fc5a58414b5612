//! BLAKE3 digests, which chain the records of a store together.
use vstd::prelude::*;

verus! {

/// The BLAKE3 digest of a byte string (32 bytes).
pub uninterp spec fn blake3_digest(data: Seq<u8>) -> Seq<u8>;

/// `blake3::hash`: the 32-byte BLAKE3 digest of `data`. The contract names the digest
/// and claims nothing else of it: equal inputs give equal digests.
#[verifier::external_body]
pub(crate) fn blake3_hash(data: &[u8]) -> (r: [u8; 32])
    ensures
        r@ == blake3_digest(data@),
{
    *blake3::hash(data).as_bytes()
}

/// Compares two digests byte by byte.
pub fn digest_eq(a: &[u8; 32], b: &[u8; 32]) -> (r: bool)
    ensures
        r == (a@ == b@),
{
    let mut i: usize = 0;
    while i < 32
        invariant
            i <= 32,
            a@.len() == 32,
            b@.len() == 32,
            forall|j: int| 0 <= j < i ==> a@[j] == b@[j],
        decreases 32 - i,
    {
        if a[i] != b[i] {
            assert(a@[i as int] != b@[i as int]);
            return false;
        }
        i += 1;
    }
    assert(a@ =~= b@);
    true
}

} // verus!
