//! The Keccak-256 digest.
use vstd::prelude::*;
use sha3::Digest;

verus! {

/// The Keccak-256 digest of the bytes.
pub uninterp spec fn keccak256(data: Seq<u8>) -> Seq<u8>;

/// Relies on sha3's `Keccak256::digest`: the 32-byte digest of the bytes.
#[verifier::external_body]
pub(crate) fn keccak(data: &[u8]) -> (r: [u8; 32])
    ensures
        r@ == keccak256(data@),
{
    sha3::Keccak256::digest(data).into()
}

/// The big-endian encoding of a 32-bit integer.
pub open spec fn u32_be(x: u32) -> Seq<u8> {
    seq![(x >> 24u32) as u8, (x >> 16u32) as u8, (x >> 8u32) as u8, x as u8]
}

/// Appends the bytes to a transcript.
pub(crate) fn append(t: &mut Vec<u8>, b: &[u8])
    ensures
        final(t)@ == old(t)@ + b@,
{
    let mut i: usize = 0;
    while i < b.len()
        invariant
            0 <= i <= b@.len(),
            t@ == old(t)@ + b@.subrange(0, i as int),
        decreases b@.len() - i,
    {
        t.push(b[i]);
        i = i + 1;
        assert(t@ =~= old(t)@ + b@.subrange(0, i as int));
    }
    assert(b@.subrange(0, b@.len() as int) =~= b@);
}

/// Appends the big-endian encoding of `x` to a transcript.
pub(crate) fn append_u32_be(t: &mut Vec<u8>, x: u32)
    ensures
        final(t)@ == old(t)@ + u32_be(x),
{
    t.push((x >> 24u32) as u8);
    t.push((x >> 16u32) as u8);
    t.push((x >> 8u32) as u8);
    t.push(x as u8);
    assert(t@ =~= old(t)@ + u32_be(x));
}

} // verus!
