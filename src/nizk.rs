//! A non-interactive zero-knowledge proof of knowledge of a secret key: a
//! Schnorr signature made with that key.
use vstd::prelude::*;
use crate::hash::{append, append_u32_be, keccak, keccak256, u32_be};
use crate::point::{base_times, point_sum, point_times, Point};
use crate::scalar::{be_value, bytes_ct_eq, group_order, Scalar};

verus! {

/// The bytes hashed into the challenge of a proof by participant `index`
/// for the public key `a`, with the commitment `m`.
pub open spec fn nizk_transcript(index: u32, a: Seq<u8>, m: Seq<u8>) -> Seq<u8> {
    u32_be(index) + seq![0xCEu8, 0xA6u8] + a + m
}

/// The challenge digest of a proof.
pub open spec fn nizk_digest(index: u32, a: Seq<u8>, m: Seq<u8>) -> Seq<u8> {
    keccak256(nizk_transcript(index, a, m))
}

/// The commitment `G^r · A^{-s}` that a verifier recomputes.
pub open spec fn nizk_recomputed_commitment(a: Seq<u8>, s: int, r: int) -> Seq<u8> {
    point_sum(base_times(r), point_times(a, (group_order() - s) % group_order()))
}

/// `proof` was made for participant `index` with the secret `a`, the public
/// key `big_a` and the nonce `k`.
pub open spec fn made_with_nonce(
    proof: NizkOfSecretKey,
    index: u32,
    a: int,
    big_a: Seq<u8>,
    k: int,
) -> bool {
    &&& proof.s.value() == be_value(nizk_digest(index, big_a, base_times(k)))
    &&& proof.r.value() == (k + (a * proof.s.value()) % group_order()) % group_order()
}

/// Whether `proof` is accepted for participant `index` and the encoded
/// public key `a`.
pub open spec fn nizk_accepts(proof: NizkOfSecretKey, index: u32, a: Seq<u8>) -> bool {
    nizk_digest(index, a, nizk_recomputed_commitment(a, proof.s.value(), proof.r.value()))
        == proof.s.encoding()
}

/// A proof of knowledge of the secret key `a` behind a public key `A = G^a`:
/// `s = H(index ‖ tag ‖ A ‖ G^k)` and `r = k + a·s` for a random nonce `k`.
#[derive(Clone, Copy, Debug)]
pub struct NizkOfSecretKey {
    /// The challenge.
    pub s: Scalar,
    /// The response.
    pub r: Scalar,
}

/// The challenge digest of a proof.
fn challenge_digest(index: u32, public_key: &Point, commitment: &Point) -> (r: [u8; 32])
    ensures
        r@ == nizk_digest(index, public_key.encoding(), commitment.encoding()),
{
    let mut t: Vec<u8> = Vec::new();
    append_u32_be(&mut t, index);
    append(&mut t, &[0xCEu8, 0xA6u8]);
    append(&mut t, &public_key.to_bytes());
    append(&mut t, &commitment.to_bytes());
    assert(t@ =~= nizk_transcript(index, public_key.encoding(), commitment.encoding()));
    keccak(t.as_slice())
}

impl NizkOfSecretKey {
    /// Proves knowledge of `secret_key` for `public_key` with the nonce `k`.
    /// `None` where the challenge digest is not a canonical scalar.
    pub fn prove_with_nonce(index: u32, secret_key: &Scalar, public_key: &Point, k: &Scalar) -> (r:
        Option<NizkOfSecretKey>)
        ensures
            r is Some <==> be_value(nizk_digest(index, public_key.encoding(), base_times(k.value())))
                < group_order(),
            r is Some ==> made_with_nonce(
                r.unwrap(),
                index,
                secret_key.value(),
                public_key.encoding(),
                k.value(),
            ),
    {
        let m = Point::base_mul(k);
        match Scalar::from_bytes(challenge_digest(index, public_key, &m)) {
            None => None,
            Some(s) => {
                let r = k.add(&secret_key.mul(&s));
                Some(NizkOfSecretKey { s, r })
            },
        }
    }

    /// Proves knowledge of `secret_key` for `public_key` with a fresh random
    /// nonce. `None` where the challenge digest is not a canonical scalar.
    pub fn prove(index: u32, secret_key: &Scalar, public_key: &Point) -> (r: Option<
        NizkOfSecretKey,
    >)
        ensures
            r is Some ==> exists|k: int|
                #[trigger] made_with_nonce(
                    r.unwrap(),
                    index,
                    secret_key.value(),
                    public_key.encoding(),
                    k,
                ),
    {
        let k = Scalar::random();
        NizkOfSecretKey::prove_with_nonce(index, secret_key, public_key, &k)
    }

    /// Verifies the proof for participant `index` and `public_key`: `Ok`
    /// exactly when the challenge recomputed from `G^r · A^{-s}` is `s`.
    pub fn verify(&self, index: u32, public_key: &Point) -> (r: Result<(), ()>)
        ensures
            r is Ok <==> nizk_accepts(*self, index, public_key.encoding()),
    {
        let m = Point::base_mul(&self.r).add(&public_key.mul(&self.s.neg()));
        let digest = challenge_digest(index, public_key, &m);
        if bytes_ct_eq(&digest, &self.s.to_bytes()) {
            Ok(())
        } else {
            Err(())
        }
    }
}

} // verus!
