//! Scalars: integers modulo the order of the secp256k1 group, held as their
//! canonical 32-byte big-endian encoding.
use vstd::prelude::*;
use k256::elliptic_curve::Field;
use k256::elliptic_curve::PrimeField;
use subtle::ConstantTimeEq;
use zeroize::Zeroize;

verus! {

/// The order q of the secp256k1 group.
pub open spec fn group_order() -> int {
    let limb: int = 0x1_0000_0000_0000_0000;
    ((0xFFFF_FFFF_FFFF_FFFF * limb + 0xFFFF_FFFF_FFFF_FFFE) * limb + 0xBAAE_DCE6_AF48_A03B) * limb
        + 0xBFD2_5E8C_D036_4141
}

/// The integer that a byte string encodes, most significant byte first.
pub open spec fn be_value(b: Seq<u8>) -> nat
    decreases b.len(),
{
    if b.len() == 0 {
        0
    } else {
        be_value(b.drop_last()) * 256 + b.last() as nat
    }
}

/// A scalar's encoding is 32 bytes, and encodes its value.
pub proof fn lemma_scalar_encoding(s: Scalar)
    ensures
        s.encoding().len() == 32,
        be_value(s.encoding()) == s.value(),
{
}

/// Zero bytes encode zero.
proof fn lemma_be_value_zeros(n: nat)
    ensures
        be_value(Seq::new(n, |i: int| 0u8)) == 0,
    decreases n,
{
    if n > 0 {
        assert(Seq::new(n, |i: int| 0u8).drop_last() =~= Seq::new((n - 1) as nat, |i: int| 0u8));
        lemma_be_value_zeros((n - 1) as nat);
    }
}

/// An element of the scalar field, as its canonical big-endian encoding.
#[derive(Clone, Copy, Debug)]
pub struct Scalar {
    pub(crate) bytes: [u8; 32],
}

impl Scalar {
    /// The integer in `[0, q)` that this scalar stands for.
    pub closed spec fn value(&self) -> int {
        be_value(self.bytes@) as int
    }

    /// The canonical encoding of this scalar.
    pub closed spec fn encoding(&self) -> Seq<u8> {
        self.bytes@
    }

    /// A scalar's encoding is canonical: it is below the group order.
    #[verifier::type_invariant]
    spec fn canonical(&self) -> bool {
        self.value() < group_order()
    }

    /// The scalar as an integer.
    pub fn from_u32(n: u32) -> (r: Scalar)
        ensures
            r.value() == n,
    {
        scalar_from_u32(n)
    }

    /// The scalar zero.
    pub fn zero() -> (r: Scalar)
        ensures
            r.value() == 0,
    {
        scalar_from_u32(0)
    }

    /// The scalar one.
    pub fn one() -> (r: Scalar)
        ensures
            r.value() == 1,
    {
        scalar_from_u32(1)
    }

    /// A scalar drawn uniformly at random from the operating system's
    /// generator.
    pub fn random() -> (r: Scalar)
        ensures
    {
        random_scalar()
    }

    /// Decodes a canonical encoding: `None` exactly when the bytes encode an
    /// integer that is not below the group order.
    pub fn from_bytes(bytes: [u8; 32]) -> (r: Option<Scalar>)
        ensures
            r is Some <==> be_value(bytes@) < group_order(),
            r is Some ==> r.unwrap().value() == be_value(bytes@)
                && r.unwrap().encoding() == bytes@,
    {
        scalar_from_repr(bytes)
    }

    /// The canonical encoding of this scalar.
    pub fn to_bytes(&self) -> (r: [u8; 32])
        ensures
            r@ == self.encoding(),
            be_value(r@) == self.value(),
    {
        self.bytes
    }

    /// `self + o` modulo the group order.
    pub fn add(&self, o: &Scalar) -> (r: Scalar)
        ensures
            r.value() == (self.value() + o.value()) % group_order(),
    {
        scalar_add(self, o)
    }

    /// `self - o` modulo the group order.
    pub fn sub(&self, o: &Scalar) -> (r: Scalar)
        ensures
            r.value() == (self.value() + group_order() - o.value()) % group_order(),
    {
        scalar_sub(self, o)
    }

    /// `self * o` modulo the group order.
    pub fn mul(&self, o: &Scalar) -> (r: Scalar)
        ensures
            r.value() == (self.value() * o.value()) % group_order(),
    {
        scalar_mul(self, o)
    }

    /// `-self` modulo the group order.
    pub fn neg(&self) -> (r: Scalar)
        ensures
            r.value() == (group_order() - self.value()) % group_order(),
    {
        scalar_neg(self)
    }

    /// Overwrites this scalar with zero, so that the secret it held does not
    /// stay in memory.
    pub fn wipe(&mut self)
        ensures
            final(self).value() == 0,
    {
        proof { lemma_be_value_zeros(32); }
        wipe_bytes(&mut self.bytes);
    }

    /// Whether the two scalars are equal.
    pub fn equals(&self, o: &Scalar) -> (r: bool)
        ensures
            r == (self.encoding() == o.encoding()),
            r ==> self.value() == o.value(),
    {
        bytes_ct_eq(&self.bytes, &o.bytes)
    }
}

/// Relies on k256's `From<u32> for Scalar` and `Scalar::to_bytes`: the integer
/// itself, encoded big-endian.
#[verifier::external_body]
fn scalar_from_u32(n: u32) -> (r: Scalar)
    ensures
        r.value() == n,
{
    Scalar { bytes: k256::Scalar::from(n).to_bytes().into() }
}

/// Relies on k256's `Scalar::from_repr`: it accepts exactly the big-endian
/// encodings of integers below the group order, and keeps their bytes.
#[verifier::external_body]
fn scalar_from_repr(bytes: [u8; 32]) -> (r: Option<Scalar>)
    ensures
        r is Some <==> be_value(bytes@) < group_order(),
        r is Some ==> r.unwrap().bytes@ == bytes@,
{
    let s: Option<k256::Scalar> = k256::Scalar::from_repr(bytes.into()).into();
    s.map(|s| Scalar { bytes: s.to_bytes().into() })
}

/// Relies on k256's `Field::random` over `OsRng`: a canonical scalar.
#[verifier::external_body]
fn random_scalar() -> (r: Scalar)
    ensures
{
    Scalar { bytes: k256::Scalar::random(&mut rand::rngs::OsRng).to_bytes().into() }
}

/// Relies on k256's `Scalar::add`: addition modulo the group order.
#[verifier::external_body]
fn scalar_add(a: &Scalar, b: &Scalar) -> (r: Scalar)
    ensures
        r.value() == (a.value() + b.value()) % group_order(),
{
    let x = k256::Scalar::from_repr(a.bytes.into()).unwrap();
    let y = k256::Scalar::from_repr(b.bytes.into()).unwrap();
    Scalar { bytes: x.add(&y).to_bytes().into() }
}

/// Relies on k256's `Scalar::sub`: subtraction modulo the group order.
#[verifier::external_body]
fn scalar_sub(a: &Scalar, b: &Scalar) -> (r: Scalar)
    ensures
        r.value() == (a.value() + group_order() - b.value()) % group_order(),
{
    let x = k256::Scalar::from_repr(a.bytes.into()).unwrap();
    let y = k256::Scalar::from_repr(b.bytes.into()).unwrap();
    Scalar { bytes: x.sub(&y).to_bytes().into() }
}

/// Relies on k256's `Scalar::mul`: multiplication modulo the group order.
#[verifier::external_body]
fn scalar_mul(a: &Scalar, b: &Scalar) -> (r: Scalar)
    ensures
        r.value() == (a.value() * b.value()) % group_order(),
{
    let x = k256::Scalar::from_repr(a.bytes.into()).unwrap();
    let y = k256::Scalar::from_repr(b.bytes.into()).unwrap();
    Scalar { bytes: x.mul(&y).to_bytes().into() }
}

/// Relies on k256's `Scalar::negate`: negation modulo the group order.
#[verifier::external_body]
fn scalar_neg(a: &Scalar) -> (r: Scalar)
    ensures
        r.value() == (group_order() - a.value()) % group_order(),
{
    let x = k256::Scalar::from_repr(a.bytes.into()).unwrap();
    Scalar { bytes: x.negate().to_bytes().into() }
}

/// Relies on k256's `Scalar::invert`: the multiplicative inverse modulo the
/// group order, which exists exactly for the nonzero scalars.
#[verifier::external_body]
pub(crate) fn scalar_invert(a: &Scalar) -> (r: Option<Scalar>)
    ensures
        r is Some <==> a.value() != 0,
        r is Some ==> (r.unwrap().value() * a.value()) % group_order() == 1 && 0 <= r.unwrap().value()
            < group_order(),
{
    let x = k256::Scalar::from_repr(a.bytes.into()).unwrap();
    let y: Option<k256::Scalar> = x.invert().into();
    y.map(|y| Scalar { bytes: y.to_bytes().into() })
}

/// Relies on subtle's `ConstantTimeEq for [u8]`: equality of two byte strings,
/// decided in time that depends on their lengths only.
#[verifier::external_body]
pub(crate) fn bytes_ct_eq(a: &[u8], b: &[u8]) -> (r: bool)
    ensures
        r == (a@ == b@),
{
    a.ct_eq(b).into()
}

/// Relies on zeroize's `Zeroize for [u8; 32]`: every byte is overwritten
/// with zero, in a way the compiler does not elide.
#[verifier::external_body]
pub(crate) fn wipe_bytes(b: &mut [u8; 32])
    ensures
        final(b)@ == Seq::new(32, |i: int| 0u8),
    no_unwind
{
    b.zeroize();
}

} // verus!
