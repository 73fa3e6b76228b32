//! Precomputation for one-round signing: single-use nonce pairs and their
//! published commitments.
use vstd::prelude::*;
use crate::point::{base_times, Point};
use crate::scalar::{bytes_ct_eq, Scalar};

verus! {

/// A pair of fresh nonces, the hiding one and the binding one.
#[derive(Debug)]
pub struct NoncePair(pub Scalar, pub Scalar);

impl NoncePair {
    /// Draws two independent random nonces.
    pub fn new() -> (r: NoncePair) {
        NoncePair(Scalar::random(), Scalar::random())
    }
}

/// A nonce and its commitment `G^nonce`.
#[derive(Clone, Copy, Debug)]
pub struct Commitment {
    /// The nonce.
    pub nonce: Scalar,
    /// The commitment to the nonce.
    pub sealed: Point,
}

impl Commitment {
    /// The commitment is `G^nonce`.
    pub open spec fn wf(&self) -> bool {
        self.sealed.encoding() == base_times(self.nonce.value())
    }

    /// Whether nonce and commitment both match.
    pub open spec fn same_as(&self, o: &Commitment) -> bool {
        self.nonce.encoding() == o.nonce.encoding() && self.sealed.encoding() == o.sealed.encoding()
    }

    /// Commits to the nonce.
    pub fn new(nonce: Scalar) -> (r: Commitment)
        ensures
            r.nonce == nonce,
            r.wf(),
    {
        Commitment { nonce, sealed: Point::base_mul(&nonce) }
    }

    /// Compares nonce and commitment in constant time.
    pub fn ct_eq(&self, o: &Commitment) -> (r: bool)
        ensures
            r == self.same_as(o),
    {
        let a = bytes_ct_eq(&self.nonce.to_bytes(), &o.nonce.to_bytes());
        let b = bytes_ct_eq(&self.sealed.to_bytes(), &o.sealed.to_bytes());
        a && b
    }

    /// Overwrites the nonce with zero and the commitment with the identity.
    pub fn zeroize(&mut self)
        ensures
            final(self).nonce.value() == 0,
    {
        self.nonce.wipe();
        self.sealed = Point::identity();
    }
}

/// A precomputed commitment share: a hiding pair `(d, D = G^d)` and a binding
/// pair `(e, E = G^e)`.
#[derive(Clone, Copy, Debug)]
pub struct CommitmentShare {
    /// The hiding commitment `(d, D)`.
    pub hiding: Commitment,
    /// The binding commitment `(e, E)`.
    pub binding: Commitment,
}

impl CommitmentShare {
    /// Both commitments are to their nonces.
    pub open spec fn wf(&self) -> bool {
        self.hiding.wf() && self.binding.wf()
    }

    /// Whether both commitments match.
    pub open spec fn same_as(&self, o: &CommitmentShare) -> bool {
        self.hiding.same_as(&o.hiding) && self.binding.same_as(&o.binding)
    }

    /// The public half, `(D, E)`.
    pub open spec fn public_part(&self) -> (Point, Point) {
        (self.hiding.sealed, self.binding.sealed)
    }

    /// Commits to both nonces of the pair.
    pub fn from_nonce_pair(pair: NoncePair) -> (r: CommitmentShare)
        ensures
            r.hiding.nonce == pair.0,
            r.binding.nonce == pair.1,
            r.wf(),
    {
        CommitmentShare { hiding: Commitment::new(pair.0), binding: Commitment::new(pair.1) }
    }

    /// Compares both commitments in constant time.
    pub fn ct_eq(&self, o: &CommitmentShare) -> (r: bool)
        ensures
            r == self.same_as(o),
    {
        let a = self.hiding.ct_eq(&o.hiding);
        let b = self.binding.ct_eq(&o.binding);
        a && b
    }

    /// The commitments to publish, `(D, E)`.
    pub fn publish(&self) -> (r: (Point, Point))
        ensures
            r == self.public_part(),
    {
        (self.hiding.sealed, self.binding.sealed)
    }

    /// Overwrites both nonces with zero.
    pub fn zeroize(&mut self)
        ensures
            final(self).hiding.nonce.value() == 0,
            final(self).binding.nonce.value() == 0,
    {
        self.hiding.zeroize();
        self.binding.zeroize();
    }
}

impl From<NoncePair> for CommitmentShare {
    fn from(pair: NoncePair) -> (r: CommitmentShare)
        ensures
            r.hiding.nonce == pair.0,
            r.binding.nonce == pair.1,
            r.wf(),
    {
        CommitmentShare::from_nonce_pair(pair)
    }
}

impl vstd::std_specs::convert::FromSpecImpl<NoncePair> for CommitmentShare {
    open spec fn obeys_from_spec() -> bool {
        false
    }

    open spec fn from_spec(pair: NoncePair) -> CommitmentShare {
        arbitrary()
    }
}

/// The commitment shares that a signer keeps, nonces included, in the
/// order of the published list. A share used for signing is wiped in place
/// and its position marked consumed.
#[derive(Debug)]
pub struct SecretCommitmentShareList {
    /// The secret commitment shares.
    pub commitments: Vec<CommitmentShare>,
    /// Which positions were used for signing.
    pub consumed: Vec<bool>,
}

/// The commitments that a signer publishes ahead of signing, without their
/// nonces.
#[derive(Debug)]
pub struct PublicCommitmentShareList {
    /// The publishing participant's index.
    pub participant_index: u32,
    /// The published `(D, E)` pairs, in the order of the secret list.
    pub commitments: Vec<(Point, Point)>,
}

/// The position of the last share in `s` that matches `share`, or -1.
pub open spec fn last_match(s: Seq<CommitmentShare>, share: CommitmentShare) -> int
    decreases s.len(),
{
    if s.len() == 0 {
        -1
    } else if s.last().same_as(&share) {
        s.len() - 1
    } else {
        last_match(s.drop_last(), share)
    }
}

proof fn lemma_last_match_range(s: Seq<CommitmentShare>, share: CommitmentShare)
    ensures
        -1 <= last_match(s, share) < s.len(),
        last_match(s, share) >= 0 ==> s[last_match(s, share)].same_as(&share),
        last_match(s, share) == -1 ==> forall|i: int| 0 <= i < s.len() ==> !s[i].same_as(&share),
    decreases s.len(),
{
    if s.len() > 0 && !s.last().same_as(&share) {
        lemma_last_match_range(s.drop_last(), share);
        assert forall|i: int| 0 <= i < s.len() && last_match(s, share) == -1 implies !s[i].same_as(
            &share,
        ) by {
            if i < s.len() - 1 {
                assert(s[i] == s.drop_last()[i]);
            }
        }
    }
}

/// A share that matches some entry is found at that entry or a later one.
pub proof fn lemma_last_match_at_least(s: Seq<CommitmentShare>, share: CommitmentShare, i: int)
    requires
        0 <= i < s.len(),
        s[i].same_as(&share),
    ensures
        i <= last_match(s, share) < s.len(),
        s[last_match(s, share)].same_as(&share),
    decreases s.len(),
{
    lemma_last_match_range(s, share);
    if !s.last().same_as(&share) {
        assert(s.drop_last()[i] == s[i]);
        lemma_last_match_at_least(s.drop_last(), share, i);
    }
}

/// A dropped share is gone for good: where no other entry of the list
/// matches the share at position `i`, the list that `drop_share` leaves
/// holds no entry that matches it.
pub proof fn lemma_used_share_gone(s: Seq<CommitmentShare>, i: int)
    requires
        0 <= i < s.len(),
        forall|j: int| 0 <= j < s.len() && j != i ==> !(#[trigger] s[j]).same_as(&s[i]),
    ensures
        last_match(s, s[i]) == i,
        forall|j: int|
            0 <= j < s.len() - 1 ==> !(#[trigger] s.remove(last_match(s, s[i]))[j]).same_as(&s[i]),
{
    assert(s[i].same_as(&s[i]));
    lemma_last_match_at_least(s, s[i], i);
    assert forall|j: int| 0 <= j < s.len() - 1 implies !(#[trigger] s.remove(i)[j]).same_as(&s[i]) by {
        if j < i {
            assert(s.remove(i)[j] == s[j]);
        } else {
            assert(s.remove(i)[j] == s[j + 1]);
        }
    }
}

/// Precomputes `number_of_shares` commitment shares for participant
/// `participant_index`: the list to keep and the list to publish, entry for
/// entry.
pub fn generate_commitment_share_lists(participant_index: u32, number_of_shares: usize) -> (r: (
    PublicCommitmentShareList,
    SecretCommitmentShareList,
))
    ensures
        r.0.participant_index == participant_index,
        r.0.commitments@.len() == number_of_shares,
        r.1.commitments@.len() == number_of_shares,
        forall|i: int| !#[trigger] r.1.is_consumed(i),
        forall|i: int|
            0 <= i < number_of_shares ==> #[trigger] r.1.commitments@[i].wf()
                && r.0.commitments@[i] == r.1.commitments@[i].public_part(),
{
    let mut commitments: Vec<CommitmentShare> = Vec::new();
    let mut published: Vec<(Point, Point)> = Vec::new();
    let mut consumed: Vec<bool> = Vec::new();
    let mut i: usize = 0;
    while i < number_of_shares
        invariant
            0 <= i <= number_of_shares,
            commitments@.len() == i,
            published@.len() == i,
            consumed@.len() == i,
            forall|j: int| 0 <= j < i ==> !#[trigger] consumed@[j],
            forall|j: int|
                0 <= j < i ==> #[trigger] commitments@[j].wf() && published@[j]
                    == commitments@[j].public_part(),
        decreases number_of_shares - i,
    {
        let share = CommitmentShare::from_nonce_pair(NoncePair::new());
        published.push(share.publish());
        commitments.push(share);
        consumed.push(false);
        i = i + 1;
    }
    (
        PublicCommitmentShareList { participant_index, commitments: published },
        SecretCommitmentShareList { commitments, consumed },
    )
}

impl SecretCommitmentShareList {
    /// The share at position `i` was used for signing.
    pub open spec fn is_consumed(&self, i: int) -> bool {
        0 <= i < self.consumed@.len() && self.consumed@[i]
    }

    /// Whether the share at position `i` was used for signing.
    pub fn is_consumed_at(&self, i: usize) -> (r: bool)
        ensures
            r == self.is_consumed(i as int),
    {
        i < self.consumed.len() && self.consumed[i]
    }

    /// Wipes the share at position `i` in place and marks the position
    /// consumed; the other positions keep their shares and marks.
    pub fn consume(&mut self, i: usize)
        requires
            i < old(self).commitments@.len(),
        ensures
            final(self).commitments@.len() == old(self).commitments@.len(),
            forall|j: int|
                0 <= j < final(self).commitments@.len() && j != i
                    ==> #[trigger] final(self).commitments@[j] == old(self).commitments@[j],
            final(self).commitments@[i as int].hiding.nonce.value() == 0,
            final(self).commitments@[i as int].binding.nonce.value() == 0,
            final(self).is_consumed(i as int),
            forall|j: int| j != i ==> #[trigger] final(self).is_consumed(j) == old(self).is_consumed(j),
    {
        while self.consumed.len() <= i
            invariant
                self.commitments@ == old(self).commitments@,
                i < self.commitments@.len(),
                forall|j: int|
                    0 <= j < self.consumed@.len() ==> #[trigger] self.consumed@[j] == (j
                        < old(self).consumed@.len() && old(self).consumed@[j]),
                self.consumed@.len() >= old(self).consumed@.len(),
            decreases i + 1 - self.consumed@.len(),
        {
            self.consumed.push(false);
        }
        self.consumed.set(i, true);
        let mut share = self.commitments[i];
        share.zeroize();
        self.commitments.set(i, share);
    }

    /// Removes the used `share` from the list and wipes it: the last entry
    /// that matches it in nonces and commitments, compared in constant time,
    /// leaves the list. Where none matches, the list stays as it was.
    pub fn drop_share(&mut self, share: CommitmentShare)
        ensures
            last_match(old(self).commitments@, share) >= 0 ==> final(self).commitments@
                == old(self).commitments@.remove(last_match(old(self).commitments@, share)),
            last_match(old(self).commitments@, share) == -1 ==> final(self).commitments@
                == old(self).commitments@,
            forall|j: int|
                #![trigger final(self).is_consumed(j)]
                last_match(old(self).commitments@, share) >= 0 ==> final(self).is_consumed(j) == if j
                    < last_match(old(self).commitments@, share) {
                    old(self).is_consumed(j)
                } else {
                    old(self).is_consumed(j + 1)
                },
            forall|j: int|
                #![trigger final(self).is_consumed(j)]
                last_match(old(self).commitments@, share) == -1 ==> final(self).is_consumed(j)
                    == old(self).is_consumed(j),
    {
        let mut share = share;
        let mut found: bool = false;
        let mut index: usize = 0;
        let mut i: usize = 0;
        while i < self.commitments.len()
            invariant
                0 <= i <= self.commitments@.len(),
                self.commitments@ == old(self).commitments@,
                found ==> index < i && last_match(self.commitments@.subrange(0, i as int), share)
                    == index,
                !found ==> last_match(self.commitments@.subrange(0, i as int), share) == -1,
            decreases self.commitments@.len() - i,
        {
            let matches = self.commitments[i].ct_eq(&share);
            proof {
                let s = self.commitments@.subrange(0, i + 1);
                assert(s.drop_last() =~= self.commitments@.subrange(0, i as int));
                assert(s.last() == self.commitments@[i as int]);
            }
            if matches {
                found = true;
                index = i;
            }
            i = i + 1;
        }
        assert(self.commitments@.subrange(0, i as int) =~= self.commitments@);
        if found {
            let mut removed = self.commitments.remove(index);
            removed.zeroize();
            if index < self.consumed.len() {
                self.consumed.remove(index);
            }
        }
        share.zeroize();
    }
}

} // verus!
