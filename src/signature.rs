//! One-round threshold signing: binding factors, the group commitment, the
//! challenge, Lagrange coefficients, partial signatures and the final
//! signature.
use vstd::prelude::*;
use crate::hash::{append, append_u32_be, keccak, keccak256, u32_be};
use crate::keygen::{GroupKey, SecretKey};
use crate::sorting::{all_distinct, has_no_duplicates};
use crate::point::{
    base_times, identity_encoding, point_sum, point_times, uncompressed_encoding, Point,
};
use crate::precomputation::SecretCommitmentShareList;
use crate::point::{is_canonical_encoding, lemma_point_encoding_len};
use crate::scalar::{be_value, group_order, lemma_scalar_encoding, scalar_invert, Scalar};

verus! {

/// A signer in one signing ceremony: its index and the commitment share
/// `(D, E)` it published for this ceremony.
#[derive(Clone, Copy, Debug)]
pub struct Signer {
    /// The participant index of this signer.
    pub participant_index: u32,
    /// The published hiding and binding commitments `(D, E)`.
    pub published_commitment_share: (Point, Point),
}

impl PartialEq for Signer {
    fn eq(&self, o: &Signer) -> (r: bool) {
        self.participant_index == o.participant_index
    }
}

impl vstd::std_specs::cmp::PartialEqSpecImpl for Signer {
    open spec fn obeys_eq_spec() -> bool {
        true
    }

    open spec fn eq_spec(&self, o: &Signer) -> bool {
        self.participant_index == o.participant_index
    }
}

/// One signer's contribution to a threshold signature.
#[derive(Clone, Copy, Debug)]
pub struct PartialThresholdSignature {
    /// The signer's index.
    pub index: u32,
    /// The signer's response `z_i`.
    pub z: Scalar,
}

/// A complete threshold signature `(R, z)`, verifiable against the group
/// key.
#[allow(non_snake_case)]
#[derive(Clone, Copy, Debug)]
pub struct ThresholdSignature {
    pub(crate) R: Point,
    pub(crate) z: Scalar,
}

impl ThresholdSignature {
    /// The group commitment `R`.
    pub closed spec fn commitment(&self) -> Point {
        self.R
    }

    /// The response `z`.
    pub closed spec fn response(&self) -> Scalar {
        self.z
    }

    /// The signature `(r, z)`.
    pub(crate) fn from_parts(r: Point, z: Scalar) -> (sig: ThresholdSignature)
        ensures
            sig.commitment() == r,
            sig.response() == z,
    {
        ThresholdSignature { R: r, z }
    }
}

/// Why a signer could not produce a partial signature.
#[derive(Clone, Copy, Debug, PartialEq, Eq, Structural)]
pub enum SignError {
    /// No commitment share is left at the given position.
    CommitmentShareExhausted,
    /// A binding factor digest is not a canonical scalar.
    InvalidBindingFactor,
    /// The signer is not among the signers.
    MissingBindingFactor,
    /// The challenge digest is not a canonical scalar.
    InvalidChallenge,
    /// Two signers share an index, so no Lagrange coefficient exists.
    DuplicateOrInvalidLagrangeInput,
}

/// A compressed point with its tag reduced to the parity of `y`, moved to
/// the end.
pub open spec fn normalized(p: Seq<u8>) -> Seq<u8> {
    p.subrange(1, 33) + seq![p[0] & 1u8]
}

/// A signer's entry in the binding transcript.
pub open spec fn signer_bytes(s: Signer) -> Seq<u8> {
    u32_be(s.participant_index) + normalized(s.published_commitment_share.0.encoding()) + normalized(
        s.published_commitment_share.1.encoding(),
    )
}

/// The entries of all the signers, in order.
pub open spec fn signers_bytes(s: Seq<Signer>) -> Seq<u8>
    decreases s.len(),
{
    if s.len() == 0 {
        Seq::empty()
    } else {
        signers_bytes(s.drop_last()) + signer_bytes(s.last())
    }
}

/// The digest from which signer `k`'s binding factor comes: the message
/// hash, every signer's entry, then signer `k`'s entry again.
pub open spec fn binding_digest(message_hash: Seq<u8>, signers: Seq<Signer>, k: int) -> Seq<u8> {
    keccak256(message_hash + signers_bytes(signers) + signer_bytes(signers[k]))
}

/// Signer `k`'s binding factor `ρ_k`.
pub open spec fn binding_factor(message_hash: Seq<u8>, signers: Seq<Signer>, k: int) -> int {
    be_value(binding_digest(message_hash, signers, k)) as int
}

/// Every binding factor digest is a canonical scalar.
pub open spec fn binding_factors_canonical(message_hash: Seq<u8>, signers: Seq<Signer>) -> bool {
    forall|k: int|
        0 <= k < signers.len() ==> #[trigger] binding_factor(message_hash, signers, k)
            < group_order()
}

/// Signer `k`'s commitment `R_k = E_k^{ρ_k} · D_k`.
pub open spec fn signer_commitment(message_hash: Seq<u8>, signers: Seq<Signer>, k: int) -> Seq<u8> {
    point_sum(
        point_times(
            signers[k].published_commitment_share.1.encoding(),
            binding_factor(message_hash, signers, k),
        ),
        signers[k].published_commitment_share.0.encoding(),
    )
}

/// `R_0 + … + R_{n-1}`, added in order.
pub open spec fn group_commitment_upto(message_hash: Seq<u8>, signers: Seq<Signer>, n: int) -> Seq<
    u8,
>
    decreases n,
{
    if n <= 0 {
        identity_encoding()
    } else {
        point_sum(
            group_commitment_upto(message_hash, signers, n - 1),
            signer_commitment(message_hash, signers, n - 1),
        )
    }
}

/// The group commitment `R`, the sum of every signer's commitment.
pub open spec fn group_commitment(message_hash: Seq<u8>, signers: Seq<Signer>) -> Seq<u8> {
    group_commitment_upto(message_hash, signers, signers.len() as int)
}

/// The digest from which the challenge comes: the normalized group key, the
/// message hash, and the last 20 bytes of the digest of `R`'s uncompressed
/// coordinates.
pub open spec fn challenge_digest(message_hash: Seq<u8>, group_key: Seq<u8>, r: Seq<u8>) -> Seq<
    u8,
> {
    keccak256(
        normalized(group_key) + message_hash + keccak256(
            uncompressed_encoding(r).subrange(1, 65),
        ).subrange(12, 32),
    )
}

/// The challenge can be computed: `R` has an uncompressed encoding of 65
/// bytes and the digest is a canonical scalar.
pub open spec fn challenge_defined(message_hash: Seq<u8>, group_key: Seq<u8>, r: Seq<u8>) -> bool {
    &&& uncompressed_encoding(r).len() == 65
    &&& be_value(challenge_digest(message_hash, group_key, r)) < group_order()
}

/// The challenge `c`.
pub open spec fn challenge_value(message_hash: Seq<u8>, group_key: Seq<u8>, r: Seq<u8>) -> int {
    be_value(challenge_digest(message_hash, group_key, r)) as int
}

/// The Keccak-256 digest of `context ‖ message`.
pub fn compute_message_hash(context_string: &[u8], message: &[u8]) -> (r: [u8; 32])
    ensures
        r@ == keccak256(context_string@ + message@),
{
    let mut t: Vec<u8> = Vec::new();
    append(&mut t, context_string);
    append(&mut t, message);
    keccak(t.as_slice())
}

/// Appends a point's normalized encoding to a transcript.
fn append_normalized(t: &mut Vec<u8>, p: &Point)
    ensures
        final(t)@ == old(t)@ + normalized(p.encoding()),
{
    let bytes = p.to_bytes();
    append(t, &bytes[1..33]);
    let tag: u8 = bytes[0] & 1u8;
    t.push(tag);
    assert(t@ =~= old(t)@ + normalized(p.encoding()));
}

/// Appends a signer's entry to a transcript.
fn append_signer(t: &mut Vec<u8>, s: &Signer)
    ensures
        final(t)@ == old(t)@ + signer_bytes(*s),
{
    append_u32_be(t, s.participant_index);
    append_normalized(t, &s.published_commitment_share.0);
    append_normalized(t, &s.published_commitment_share.1);
    assert(t@ =~= old(t)@ + signer_bytes(*s));
}

/// The binding factor `ρ_k` and commitment `R_k` of every signer, in the
/// signers' order; `None` where a binding factor digest is not a canonical
/// scalar.
pub(crate) fn compute_binding_factors_and_group_commitment(
    message_hash: &[u8; 32],
    signers: &[Signer],
) -> (r: Option<(Vec<Scalar>, Vec<Point>)>)
    ensures
        r is Some <==> binding_factors_canonical(message_hash@, signers@),
        r is Some ==> {
            let (rho, rs) = r.unwrap();
            &&& rho@.len() == signers@.len()
            &&& rs@.len() == signers@.len()
            &&& forall|k: int|
                0 <= k < signers@.len() ==> (#[trigger] rho@[k]).value() == binding_factor(
                    message_hash@,
                    signers@,
                    k,
                )
            &&& forall|k: int|
                0 <= k < signers@.len() ==> (#[trigger] rs@[k]).encoding() == signer_commitment(
                    message_hash@,
                    signers@,
                    k,
                )
        },
{
    let mut prefix: Vec<u8> = Vec::new();
    append(&mut prefix, message_hash);
    let mut k: usize = 0;
    while k < signers.len()
        invariant
            0 <= k <= signers@.len(),
            prefix@ == message_hash@ + signers_bytes(signers@.subrange(0, k as int)),
        decreases signers@.len() - k,
    {
        append_signer(&mut prefix, &signers[k]);
        k = k + 1;
        assert(signers@.subrange(0, k as int).drop_last() =~= signers@.subrange(0, k - 1));
        assert(prefix@ =~= message_hash@ + signers_bytes(signers@.subrange(0, k as int)));
    }
    assert(signers@.subrange(0, k as int) =~= signers@);
    let mut rho: Vec<Scalar> = Vec::new();
    let mut rs: Vec<Point> = Vec::new();
    let mut k: usize = 0;
    while k < signers.len()
        invariant
            0 <= k <= signers@.len(),
            prefix@ == message_hash@ + signers_bytes(signers@),
            rho@.len() == k,
            rs@.len() == k,
            forall|j: int|
                0 <= j < k ==> (#[trigger] rho@[j]).value() == binding_factor(
                    message_hash@,
                    signers@,
                    j,
                ),
            forall|j: int|
                0 <= j < k ==> (#[trigger] rs@[j]).encoding() == signer_commitment(
                    message_hash@,
                    signers@,
                    j,
                ),
            forall|j: int|
                0 <= j < k ==> #[trigger] binding_factor(message_hash@, signers@, j)
                    < group_order(),
        decreases signers@.len() - k,
    {
        let s = &signers[k];
        let mut t: Vec<u8> = Vec::new();
        append(&mut t, prefix.as_slice());
        append_signer(&mut t, s);
        let digest = keccak(t.as_slice());
        match Scalar::from_bytes(digest) {
            None => {
                assert(!(binding_factor(message_hash@, signers@, k as int) < group_order()));
                return None;
            },
            Some(factor) => {
                let (hiding, binding) = s.published_commitment_share;
                let r_k = binding.mul(&factor).add(&hiding);
                rho.push(factor);
                rs.push(r_k);
            },
        }
        k = k + 1;
    }
    Some((rho, rs))
}

/// The sum `R` of the signers' commitments, in order.
pub(crate) fn sum_commitments(
    rs: &Vec<Point>,
    message_hash: &[u8; 32],
    signers: &[Signer],
) -> (r: Point)
    requires
        rs@.len() == signers@.len(),
        forall|k: int|
            0 <= k < signers@.len() ==> (#[trigger] rs@[k]).encoding() == signer_commitment(
                message_hash@,
                signers@,
                k,
            ),
    ensures
        r.encoding() == group_commitment(message_hash@, signers@),
{
    let mut acc = Point::identity();
    let mut k: usize = 0;
    while k < rs.len()
        invariant
            0 <= k <= rs@.len(),
            rs@.len() == signers@.len(),
            forall|j: int|
                0 <= j < signers@.len() ==> (#[trigger] rs@[j]).encoding() == signer_commitment(
                    message_hash@,
                    signers@,
                    j,
                ),
            acc.encoding() == group_commitment_upto(message_hash@, signers@, k as int),
        decreases rs@.len() - k,
    {
        acc = acc.add(&rs[k]);
        k = k + 1;
    }
    acc
}

/// The challenge `c` for the group commitment `r`; `None` where it cannot
/// be computed.
pub(crate) fn compute_challenge(
    message_hash: &[u8; 32],
    group_key: &GroupKey,
    r: &Point,
) -> (c: Option<Scalar>)
    ensures
        c is Some <==> challenge_defined(message_hash@, group_key.0.encoding(), r.encoding()),
        c is Some ==> c.unwrap().value() == challenge_value(
            message_hash@,
            group_key.0.encoding(),
            r.encoding(),
        ),
{
    let enc = r.to_uncompressed();
    if enc.len() != 65 {
        return None;
    }
    let coordinates = keccak(&enc.as_slice()[1..65]);
    let mut t: Vec<u8> = Vec::new();
    append_normalized(&mut t, &group_key.0);
    append(&mut t, message_hash);
    append(&mut t, &coordinates[12..32]);
    assert(t@ =~= normalized(group_key.0.encoding()) + message_hash@ + keccak256(
        uncompressed_encoding(r.encoding()).subrange(1, 65),
    ).subrange(12, 32));
    Scalar::from_bytes(keccak(t.as_slice()))
}

/// `Π j` over the indices `j` of `s` other than `i`, modulo the group order.
pub open spec fn lagrange_numerator(i: u32, s: Seq<u32>) -> int
    decreases s.len(),
{
    if s.len() == 0 {
        1
    } else if s.last() == i {
        lagrange_numerator(i, s.drop_last())
    } else {
        (lagrange_numerator(i, s.drop_last()) * s.last()) % group_order()
    }
}

/// `Π (j - i)` over the indices `j` of `s` other than `i`, modulo the group
/// order.
pub open spec fn lagrange_denominator(i: u32, s: Seq<u32>) -> int
    decreases s.len(),
{
    if s.len() == 0 {
        1
    } else if s.last() == i {
        lagrange_denominator(i, s.drop_last())
    } else {
        (lagrange_denominator(i, s.drop_last()) * ((s.last() + group_order() - i)
            % group_order())) % group_order()
    }
}

/// `inv` is an inverse of `x` modulo the group order.
pub open spec fn is_inverse(inv: int, x: int) -> bool {
    (inv * x) % group_order() == 1
}

/// The inverse of `x` modulo the group order, where there is one.
pub open spec fn inverse_mod(x: int) -> int {
    choose|inv: int| 0 <= inv < group_order() && is_inverse(inv, x)
}

/// The Lagrange coefficient of participant `i` over the indices `s`: the
/// numerator times the inverse of the denominator.
pub open spec fn lagrange_coefficient(i: u32, s: Seq<u32>) -> int {
    (lagrange_numerator(i, s) * inverse_mod(lagrange_denominator(i, s))) % group_order()
}

/// An inverse modulo the group order is unique.
proof fn lemma_inverse_unique(a: int, b: int, x: int)
    requires
        0 <= a < group_order(),
        0 <= b < group_order(),
        is_inverse(a, x),
        is_inverse(b, x),
    ensures
        a == b,
{
    let q = group_order();
    vstd::arithmetic::div_mod::lemma_mul_mod_noop_right(a, b * x, q);
    vstd::arithmetic::div_mod::lemma_mul_mod_noop_right(b, a * x, q);
    vstd::arithmetic::mul::lemma_mul_is_associative(a, b, x);
    vstd::arithmetic::mul::lemma_mul_is_associative(b, a, x);
    vstd::arithmetic::mul::lemma_mul_is_commutative(a, b);
    vstd::arithmetic::div_mod::lemma_small_mod(a as nat, q as nat);
    vstd::arithmetic::div_mod::lemma_small_mod(b as nat, q as nat);
}

/// A Lagrange coefficient of participant `i` over the indices `s` exists:
/// no index repeats, and the denominator is not zero.
pub open spec fn lagrange_defined(i: u32, s: Seq<u32>) -> bool {
    all_distinct(s) && lagrange_denominator(i, s) != 0
}

/// The Lagrange coefficient of participant `i` over the participants
/// `all`: `Π j / (j - i)` over the indices `j` other than `i`. An error
/// where an index repeats, or where the denominator is zero.
pub fn calculate_lagrange_coefficients(
    participant_index: u32,
    all_participant_indices: &[u32],
) -> (r: Result<Scalar, SignError>)
    ensures
        !all_distinct(all_participant_indices@) ==> r is Err,
        r is Ok <==> lagrange_defined(participant_index, all_participant_indices@),
        r is Err ==> r == Err::<Scalar, SignError>(SignError::DuplicateOrInvalidLagrangeInput),
        r is Ok ==> r.unwrap().value() == lagrange_coefficient(
            participant_index,
            all_participant_indices@,
        ),
{
    let s = all_participant_indices;
    if !has_no_duplicates(s) {
        return Err(SignError::DuplicateOrInvalidLagrangeInput);
    }
    let mut num = Scalar::one();
    let mut den = Scalar::one();
    let mine = Scalar::from_u32(participant_index);
    let mut k: usize = 0;
    while k < s.len()
        invariant
            0 <= k <= s@.len(),
            mine.value() == participant_index,
            num.value() == lagrange_numerator(participant_index, s@.subrange(0, k as int)),
            den.value() == lagrange_denominator(participant_index, s@.subrange(0, k as int)),
        decreases s@.len() - k,
    {
        let j = s[k];
        assert(s@.subrange(0, k + 1).drop_last() =~= s@.subrange(0, k as int));
        if j != participant_index {
            let x = Scalar::from_u32(j);
            num = num.mul(&x);
            den = den.mul(&x.sub(&mine));
        }
        k = k + 1;
    }
    assert(s@.subrange(0, k as int) =~= s@);
    match scalar_invert(&den) {
        None => Err(SignError::DuplicateOrInvalidLagrangeInput),
        Some(inv) => {
            let r = num.mul(&inv);
            assert(is_inverse(inv.value(), den.value()));
            proof {
                let other = inverse_mod(den.value());
                lemma_inverse_unique(inv.value(), other, den.value());
            }
            Ok(r)
        },
    }
}

/// The indices of the signers, in order.
pub open spec fn signer_indices(signers: Seq<Signer>) -> Seq<u32> {
    signers.map_values(|s: Signer| s.participant_index)
}

/// `k` is the last position of a signer with index `i`.
pub open spec fn last_signer_position(signers: Seq<Signer>, i: u32, k: int) -> bool {
    &&& 0 <= k < signers.len()
    &&& signers[k].participant_index == i
    &&& forall|l: int| k < l < signers.len() ==> (#[trigger] signers[l]).participant_index != i
}

/// The signer's response `z = d + e·ρ - λ·key·c`, modulo the group order.
pub open spec fn partial_response(d: int, e: int, rho: int, lambda: int, key: int, c: int) -> int {
    let q = group_order();
    ((d + (e * rho) % q) % q + q - (((lambda * key) % q) * c) % q) % q
}

/// The last position of a signer with index `i`, if any.
fn find_last_signer(signers: &[Signer], i: u32) -> (r: Option<usize>)
    ensures
        r is Some ==> last_signer_position(signers@, i, r.unwrap() as int),
        r is None ==> forall|l: int|
            0 <= l < signers@.len() ==> (#[trigger] signers@[l]).participant_index != i,
{
    let mut found: Option<usize> = None;
    let mut k: usize = 0;
    while k < signers.len()
        invariant
            0 <= k <= signers@.len(),
            found is Some ==> found.unwrap() < k && signers@[found.unwrap() as int].participant_index
                == i,
            forall|l: int|
                0 <= l < k && (found is None || l > found.unwrap()) ==> (
                #[trigger] signers@[l]).participant_index != i,
        decreases signers@.len() - k,
    {
        if signers[k].participant_index == i {
            found = Some(k);
        }
        k = k + 1;
    }
    found
}

/// The indices of the signers, in order.
pub(crate) fn indices_of_signers(signers: &[Signer]) -> (r: Vec<u32>)
    ensures
        r@ == signer_indices(signers@),
{
    let mut r: Vec<u32> = Vec::new();
    let mut k: usize = 0;
    while k < signers.len()
        invariant
            0 <= k <= signers@.len(),
            r@ == signer_indices(signers@).subrange(0, k as int),
        decreases signers@.len() - k,
    {
        r.push(signers[k].participant_index);
        k = k + 1;
        assert(r@ =~= signer_indices(signers@).subrange(0, k as int));
    }
    assert(r@ =~= signer_indices(signers@));
    r
}

impl SecretKey {
    /// Computes this signer's partial signature on `message_hash` with the
    /// commitment share at `my_commitment_share_index` of its list, among
    /// `signers` (which must include it, and repeat no index):
    /// `z = d + e·ρ - λ·key·c`. On success the used share is wiped in place
    /// and its position marked consumed, so that a later call at the same
    /// position fails; on failure the list is unchanged.
    pub fn sign(
        &self,
        message_hash: &[u8; 32],
        group_key: &GroupKey,
        my_secret_commitment_share_list: &mut SecretCommitmentShareList,
        my_commitment_share_index: usize,
        signers: &[Signer],
    ) -> (r: Result<PartialThresholdSignature, SignError>)
        ensures
            ({
                let old_list = *old(my_secret_commitment_share_list);
                let new_list = *final(my_secret_commitment_share_list);
                let idx = my_commitment_share_index as int;
                let available = idx < old_list.commitments@.len() && !old_list.is_consumed(idx);
                let mh = message_hash@;
                let gk = group_key.0.encoding();
                let rr = group_commitment(mh, signers@);
                let indices = signer_indices(signers@);
                &&& !available ==> r == Err::<PartialThresholdSignature, SignError>(
                    SignError::CommitmentShareExhausted,
                )
                &&& available && !binding_factors_canonical(mh, signers@) ==> r == Err::<
                    PartialThresholdSignature,
                    SignError,
                >(SignError::InvalidBindingFactor)
                &&& available && binding_factors_canonical(mh, signers@) && !challenge_defined(
                    mh,
                    gk,
                    rr,
                ) ==> r == Err::<PartialThresholdSignature, SignError>(SignError::InvalidChallenge)
                &&& available && binding_factors_canonical(mh, signers@) && challenge_defined(
                    mh,
                    gk,
                    rr,
                ) && !indices.contains(self.index) ==> r == Err::<
                    PartialThresholdSignature,
                    SignError,
                >(SignError::MissingBindingFactor)
                &&& available && binding_factors_canonical(mh, signers@) && challenge_defined(
                    mh,
                    gk,
                    rr,
                ) && indices.contains(self.index) && !lagrange_defined(self.index, indices) ==> r
                    == Err::<PartialThresholdSignature, SignError>(
                    SignError::DuplicateOrInvalidLagrangeInput,
                )
                &&& !all_distinct(indices) ==> r is Err
                &&& r is Ok <==> available && binding_factors_canonical(mh, signers@)
                    && challenge_defined(mh, gk, rr) && indices.contains(self.index)
                    && lagrange_defined(self.index, indices)
                &&& r is Err ==> new_list.commitments@ == old_list.commitments@ && forall|j: int|
                    #[trigger] new_list.is_consumed(j) == old_list.is_consumed(j)
                &&& r is Ok ==> {
                    let share = old_list.commitments@[idx];
                    &&& new_list.commitments@.len() == old_list.commitments@.len()
                    &&& forall|j: int|
                        0 <= j < new_list.commitments@.len() && j != idx
                            ==> #[trigger] new_list.commitments@[j] == old_list.commitments@[j]
                    &&& new_list.commitments@[idx].hiding.nonce.value() == 0
                    &&& new_list.commitments@[idx].binding.nonce.value() == 0
                    &&& new_list.is_consumed(idx)
                    &&& forall|j: int|
                        j != idx ==> #[trigger] new_list.is_consumed(j) == old_list.is_consumed(j)
                    &&& r.unwrap().index == self.index
                    &&& exists|k: int|
                        {
                            &&& last_signer_position(signers@, self.index, k)
                            &&& #[trigger] r.unwrap().z.value() == partial_response(
                                share.hiding.nonce.value(),
                                share.binding.nonce.value(),
                                binding_factor(mh, signers@, k),
                                lagrange_coefficient(self.index, indices),
                                self.key.value(),
                                challenge_value(mh, gk, rr),
                            )
                        }
                }
            }),
    {
        if my_commitment_share_index >= my_secret_commitment_share_list.commitments.len()
            || my_secret_commitment_share_list.is_consumed_at(my_commitment_share_index) {
            return Err(SignError::CommitmentShareExhausted);
        }
        let (rho, rs) = match compute_binding_factors_and_group_commitment(message_hash, signers) {
            None => {
                return Err(SignError::InvalidBindingFactor);
            },
            Some(x) => x,
        };
        let r_point = sum_commitments(&rs, message_hash, signers);
        let c = match compute_challenge(message_hash, group_key, &r_point) {
            None => {
                return Err(SignError::InvalidChallenge);
            },
            Some(c) => c,
        };
        let me = match find_last_signer(signers, self.index) {
            None => {
                proof {
                    if signer_indices(signers@).contains(self.index) {
                        let l = choose|l: int|
                            0 <= l < signer_indices(signers@).len() && signer_indices(signers@)[l]
                                == self.index;
                        assert(signers@[l].participant_index == self.index);
                    }
                }
                return Err(SignError::MissingBindingFactor);
            },
            Some(k) => k,
        };
        assert(signer_indices(signers@)[me as int] == self.index);
        let all_participant_indices = indices_of_signers(signers);
        let lambda = match calculate_lagrange_coefficients(
            self.index,
            all_participant_indices.as_slice(),
        ) {
            Err(e) => {
                return Err(e);
            },
            Ok(l) => l,
        };
        let my_rho = rho[me];
        let mut share = my_secret_commitment_share_list.commitments[my_commitment_share_index];
        let z = share.hiding.nonce.add(&share.binding.nonce.mul(&my_rho)).sub(
            &lambda.mul(&self.key).mul(&c),
        );
        let ghost used = share;
        proof {
            let mh = message_hash@;
            let gk = group_key.0.encoding();
            let rr = group_commitment(mh, signers@);
            assert(my_rho.value() == binding_factor(mh, signers@, me as int));
            assert(z.value() == partial_response(
                used.hiding.nonce.value(),
                used.binding.nonce.value(),
                binding_factor(mh, signers@, me as int),
                lambda.value(),
                self.key.value(),
                challenge_value(mh, gk, rr),
            ));
            assert(last_signer_position(signers@, self.index, me as int));
            assert(signer_indices(signers@).contains(self.index));
        }
        my_secret_commitment_share_list.consume(my_commitment_share_index);
        share.zeroize();
        Ok(PartialThresholdSignature { index: self.index, z })
    }
}

/// The 65 bytes encode a signature: a point's compressed encoding, then a
/// canonical scalar.
pub open spec fn signature_bytes_valid(b: Seq<u8>) -> bool {
    &&& b.len() == 65
    &&& is_canonical_encoding(b.subrange(0, 33))
    &&& be_value(b.subrange(33, 65)) < group_order()
}

/// The encoding of a signature: `R` compressed, then `z`.
pub open spec fn signature_bytes(sig: ThresholdSignature) -> Seq<u8> {
    sig.commitment().encoding() + sig.response().encoding()
}

impl ThresholdSignature {
    /// The 65-byte encoding: `R` compressed (33 bytes), then `z` (32 bytes).
    pub fn to_bytes(&self) -> (r: [u8; 65])
        ensures
            r@ == signature_bytes(*self),
    {
        let rb = self.R.to_bytes();
        let zb = self.z.to_bytes();
        let mut bytes = [0u8; 65];
        let mut i: usize = 0;
        while i < 33
            invariant
                0 <= i <= 33,
                bytes@.len() == 65,
                forall|j: int| 0 <= j < i ==> bytes@[j] == rb@[j],
            decreases 33 - i,
        {
            bytes[i] = rb[i];
            i = i + 1;
        }
        let mut i: usize = 0;
        while i < 32
            invariant
                0 <= i <= 32,
                bytes@.len() == 65,
                forall|j: int| 0 <= j < 33 ==> bytes@[j] == rb@[j],
                forall|j: int| 0 <= j < i ==> bytes@[33 + j] == zb@[j],
            decreases 32 - i,
        {
            bytes[33 + i] = zb[i];
            i = i + 1;
        }
        assert(bytes@ =~= rb@ + zb@);
        bytes
    }

    /// Decodes 65 bytes: `None` where the first 33 are no point's encoding
    /// or the last 32 no canonical scalar.
    pub fn from_bytes(bytes: [u8; 65]) -> (r: Option<ThresholdSignature>)
        ensures
            r is Some <==> signature_bytes_valid(bytes@),
            r is Some ==> signature_bytes(r.unwrap()) == bytes@,
    {
        let mut rb = [0u8; 33];
        let mut zb = [0u8; 32];
        let mut i: usize = 0;
        while i < 33
            invariant
                0 <= i <= 33,
                rb@.len() == 33,
                forall|j: int| 0 <= j < i ==> rb@[j] == bytes@[j],
            decreases 33 - i,
        {
            rb[i] = bytes[i];
            i = i + 1;
        }
        let mut i: usize = 0;
        while i < 32
            invariant
                0 <= i <= 32,
                zb@.len() == 32,
                forall|j: int| 0 <= j < i ==> zb@[j] == bytes@[33 + j],
            decreases 32 - i,
        {
            zb[i] = bytes[33 + i];
            i = i + 1;
        }
        assert(rb@ =~= bytes@.subrange(0, 33));
        assert(zb@ =~= bytes@.subrange(33, 65));
        assert(bytes@ =~= rb@ + zb@);
        match Point::from_bytes(rb) {
            None => None,
            Some(r_point) => match Scalar::from_bytes(zb) {
                None => None,
                Some(z) => Some(ThresholdSignature { R: r_point, z }),
            },
        }
    }

    /// Verifies the signature on `message_hash` against the group key:
    /// accepted exactly when `R = Y^{c} · G^{z}` for the challenge `c` of
    /// `R`.
    pub fn verify(&self, group_key: &GroupKey, message_hash: &[u8; 32]) -> (r: Result<(), ()>)
        ensures
            r is Ok <==> challenge_defined(
                message_hash@,
                group_key.0.encoding(),
                self.commitment().encoding(),
            ) && self.commitment().encoding() == point_sum(
                point_times(
                    group_key.0.encoding(),
                    challenge_value(
                        message_hash@,
                        group_key.0.encoding(),
                        self.commitment().encoding(),
                    ),
                ),
                base_times(self.response().value()),
            ),
    {
        match compute_challenge(message_hash, group_key, &self.R) {
            None => Err(()),
            Some(c) => {
                let r_prime = group_key.0.mul(&c).add(&Point::base_mul(&self.z));
                if self.R.equals(&r_prime) {
                    Ok(())
                } else {
                    Err(())
                }
            },
        }
    }
}

/// A valid signature survives encoding and decoding: its 65 bytes are
/// accepted by `from_bytes`, which gives back the same `R` and `z`.
pub proof fn lemma_signature_bytes_round_trip(sig: ThresholdSignature)
    requires
        is_canonical_encoding(sig.commitment().encoding()),
        sig.response().value() < group_order(),
    ensures
        signature_bytes_valid(signature_bytes(sig)),
        signature_bytes(sig).subrange(0, 33) == sig.commitment().encoding(),
        signature_bytes(sig).subrange(33, 65) == sig.response().encoding(),
{
    lemma_scalar_encoding(sig.response());
    lemma_point_encoding_len(sig.commitment());
    let b = signature_bytes(sig);
    assert(b.subrange(0, 33) =~= sig.commitment().encoding());
    assert(b.subrange(33, 65) =~= sig.response().encoding());
}

} // verus!
