//! Points of the secp256k1 group, held as their 33-byte compressed SEC1
//! encoding (the identity is 33 zero bytes).
use vstd::prelude::*;
use k256::elliptic_curve::group::GroupEncoding;
use k256::elliptic_curve::sec1::ToEncodedPoint;
use crate::scalar::Scalar;

verus! {

/// Whether the bytes decode to a point of the group.
pub uninterp spec fn is_point_encoding(b: Seq<u8>) -> bool;

/// The compressed encoding of the point that the bytes decode to.
pub uninterp spec fn reencoded(b: Seq<u8>) -> Seq<u8>;

/// The bytes are the canonical compressed encoding of a point.
pub open spec fn is_canonical_encoding(b: Seq<u8>) -> bool {
    is_point_encoding(b) && reencoded(b) == b
}

/// The encoding of the sum of the two encoded points.
pub uninterp spec fn point_sum(a: Seq<u8>, b: Seq<u8>) -> Seq<u8>;

/// The encoding of the encoded point multiplied by the scalar `k`.
pub uninterp spec fn point_times(p: Seq<u8>, k: int) -> Seq<u8>;

/// The uncompressed SEC1 encoding of the encoded point.
pub uninterp spec fn uncompressed_encoding(p: Seq<u8>) -> Seq<u8>;

/// The encoding of the generator G.
pub open spec fn generator_encoding() -> Seq<u8> {
    seq![
        0x02u8, 0x79, 0xbe, 0x66, 0x7e, 0xf9, 0xdc, 0xbb, 0xac, 0x55, 0xa0, 0x62, 0x95, 0xce, 0x87,
        0x0b, 0x07, 0x02, 0x9b, 0xfc, 0xdb, 0x2d, 0xce, 0x28, 0xd9, 0x59, 0xf2, 0x81, 0x5b, 0x16,
        0xf8, 0x17, 0x98,
    ]
}

/// The encoding of the identity.
pub open spec fn identity_encoding() -> Seq<u8> {
    Seq::new(33, |i: int| 0u8)
}

/// The encoding of `G^k`.
pub open spec fn base_times(k: int) -> Seq<u8> {
    point_times(generator_encoding(), k)
}

/// A point's encoding is 33 bytes.
pub proof fn lemma_point_encoding_len(p: Point)
    ensures
        p.encoding().len() == 33,
{
}

/// A point of the group, as its compressed encoding.
#[derive(Clone, Copy, Debug)]
pub struct Point {
    pub(crate) bytes: [u8; 33],
}

impl Point {
    /// The compressed encoding of this point.
    pub closed spec fn encoding(&self) -> Seq<u8> {
        self.bytes@
    }

    /// A point's encoding is the canonical compressed encoding of a point of
    /// the group.
    #[verifier::type_invariant]
    spec fn decodes(&self) -> bool {
        is_canonical_encoding(self.encoding())
    }

    /// The generator G.
    pub fn generator() -> (r: Point)
        ensures
            r.encoding() == generator_encoding(),
    {
        point_generator()
    }

    /// The identity of the group.
    pub fn identity() -> (r: Point)
        ensures
            r.encoding() == identity_encoding(),
    {
        point_identity()
    }

    /// Decodes a compressed point: `None` where the bytes are no encoding of
    /// a point of the group, or not its canonical compressed encoding.
    pub fn from_bytes(bytes: [u8; 33]) -> (r: Option<Point>)
        ensures
            r is Some <==> is_point_encoding(bytes@) && reencoded(bytes@) == bytes@,
            r is Some ==> r.unwrap().encoding() == bytes@,
    {
        match point_decode(bytes) {
            None => None,
            Some(p) => {
                if bytes_eq_33(&p.bytes, &bytes) {
                    Some(p)
                } else {
                    None
                }
            },
        }
    }

    /// The compressed encoding of this point.
    pub fn to_bytes(&self) -> (r: [u8; 33])
        ensures
            r@ == self.encoding(),
    {
        self.bytes
    }

    /// The sum `self + o` in the group.
    pub fn add(&self, o: &Point) -> (r: Point)
        ensures
            r.encoding() == point_sum(self.encoding(), o.encoding()),
    {
        point_add(self, o)
    }

    /// The multiple `k · self` in the group.
    pub fn mul(&self, k: &Scalar) -> (r: Point)
        ensures
            r.encoding() == point_times(self.encoding(), k.value()),
    {
        point_mul(self, k)
    }

    /// `G^k`.
    pub fn base_mul(k: &Scalar) -> (r: Point)
        ensures
            r.encoding() == base_times(k.value()),
    {
        let g = Point::generator();
        g.mul(k)
    }

    /// The uncompressed SEC1 encoding of this point.
    pub fn to_uncompressed(&self) -> (r: Vec<u8>)
        ensures
            r@ == uncompressed_encoding(self.encoding()),
    {
        point_uncompressed(self)
    }

    /// Whether the two points are equal.
    pub fn equals(&self, o: &Point) -> (r: bool)
        ensures
            r == (self.encoding() == o.encoding()),
    {
        bytes_eq_33(&self.bytes, &o.bytes)
    }
}

impl PartialEq for Point {
    fn eq(&self, o: &Point) -> (r: bool) {
        self.equals(o)
    }
}

impl vstd::std_specs::cmp::PartialEqSpecImpl for Point {
    open spec fn obeys_eq_spec() -> bool {
        true
    }

    open spec fn eq_spec(&self, o: &Point) -> bool {
        self.encoding() == o.encoding()
    }
}

/// Relies on k256's `AffinePoint::GENERATOR` and its canonical `to_bytes`.
#[verifier::external_body]
fn point_generator() -> (r: Point)
    ensures
        is_canonical_encoding(r.encoding()),
        r.encoding() == generator_encoding(),
{
    Point { bytes: k256::AffinePoint::GENERATOR.to_bytes().into() }
}

/// Relies on k256's `AffinePoint::IDENTITY` and its canonical `to_bytes`,
/// which writes the identity as 33 zero bytes.
#[verifier::external_body]
fn point_identity() -> (r: Point)
    ensures
        is_canonical_encoding(r.encoding()),
        r.encoding() == identity_encoding(),
{
    Point { bytes: k256::AffinePoint::IDENTITY.to_bytes().into() }
}

/// Whether two 33-byte strings are equal.
fn bytes_eq_33(a: &[u8; 33], b: &[u8; 33]) -> (r: bool)
    ensures
        r == (a@ == b@),
{
    let mut i: usize = 0;
    while i < 33
        invariant
            0 <= i <= 33,
            a@.len() == 33,
            b@.len() == 33,
            forall|j: int| 0 <= j < i ==> a@[j] == b@[j],
        decreases 33 - i,
    {
        if a[i] != b[i] {
            return false;
        }
        i = i + 1;
    }
    assert(a@ =~= b@);
    true
}

/// Relies on k256's `AffinePoint::from_bytes`, which accepts the encodings
/// of points and the 33 zero bytes of the identity, and on `to_bytes`, which
/// writes the point back in compressed form.
#[verifier::external_body]
fn point_decode(bytes: [u8; 33]) -> (r: Option<Point>)
    ensures
        r is Some <==> is_point_encoding(bytes@),
        r is Some ==> r.unwrap().encoding() == reencoded(bytes@) && is_canonical_encoding(
            r.unwrap().encoding(),
        ),
{
    let p: Option<k256::AffinePoint> = k256::AffinePoint::from_bytes(&bytes.into()).into();
    p.map(|p| Point { bytes: p.to_bytes().into() })
}

/// Relies on k256's `Add for ProjectivePoint`, and on `to_bytes` giving the
/// canonical compressed encoding, which `from_bytes` accepts.
#[verifier::external_body]
fn point_add(a: &Point, b: &Point) -> (r: Point)
    ensures
        is_canonical_encoding(r.encoding()),
        r.encoding() == point_sum(a.encoding(), b.encoding()),
{
    let x = k256::ProjectivePoint::from_bytes(&a.bytes.into()).unwrap();
    let y = k256::ProjectivePoint::from_bytes(&b.bytes.into()).unwrap();
    Point { bytes: (x + y).to_affine().to_bytes().into() }
}

/// Relies on k256's `Mul<&Scalar> for ProjectivePoint`, and on `to_bytes`
/// giving the canonical compressed encoding, which `from_bytes` accepts.
#[verifier::external_body]
fn point_mul(p: &Point, k: &Scalar) -> (r: Point)
    ensures
        is_canonical_encoding(r.encoding()),
        r.encoding() == point_times(p.encoding(), k.value()),
{
    let x = k256::ProjectivePoint::from_bytes(&p.bytes.into()).unwrap();
    let s = <k256::Scalar as k256::elliptic_curve::PrimeField>::from_repr(k.bytes.into()).unwrap();
    Point { bytes: (x * &s).to_affine().to_bytes().into() }
}

/// Relies on k256's `ToEncodedPoint::to_encoded_point(false)` for
/// `AffinePoint`: the uncompressed SEC1 encoding.
#[verifier::external_body]
fn point_uncompressed(p: &Point) -> (r: Vec<u8>)
    ensures
        r@ == uncompressed_encoding(p.encoding()),
{
    let x = k256::AffinePoint::from_bytes(&p.bytes.into()).unwrap();
    x.to_encoded_point(false).as_bytes().to_vec()
}

} // verus!
