//! The signature aggregator: collects the signers' commitments, public keys
//! and partial signatures, checks that nothing is missing, and combines the
//! valid partial signatures into a threshold signature.
use vstd::prelude::*;
use std::collections::HashMap;
use crate::hash::keccak256;
use crate::keygen::{FrostInfo, GroupKey, IndividualPublicKey};
use crate::point::{base_times, point_sum, point_times, Point};
use crate::scalar::{group_order, Scalar};
use crate::signature::{
    binding_factors_canonical, calculate_lagrange_coefficients, challenge_defined,
    challenge_value, compute_binding_factors_and_group_commitment, compute_challenge,
    compute_message_hash, group_commitment, indices_of_signers, lagrange_coefficient,
    lagrange_defined, signer_commitment, signer_indices, sum_commitments, Signer,
    ThresholdSignature, PartialThresholdSignature,
};
use crate::sorting::{sorted_unique, strictly_ascending};

verus! {

broadcast use vstd::std_specs::hash::group_hash_axioms;

/// A signature aggregator, in any of its states.
pub trait Aggregator {

}

/// The initial state of an aggregator, which may still hold incomplete or
/// inconsistent data.
#[derive(Debug)]
pub struct Initial {
    pub(crate) context: Vec<u8>,
    pub(crate) message: Vec<u8>,
}

impl Aggregator for Initial {

}

/// The finalized state of an aggregator: no signer appears twice, and every
/// signer has a public key and a partial signature.
#[derive(Debug)]
pub struct Finalized {
    pub(crate) message_hash: [u8; 32],
}

impl Aggregator for Finalized {

}

/// What an aggregator found wrong, by participant index.
#[derive(Clone, Copy, Debug, PartialEq, Eq, Structural)]
pub enum AggregatorIssue {
    /// Some signers have not sent their partial signature (recorded under
    /// index 0, the aggregator's own).
    MissingRemainingSigners,
    /// This signer's partial signature has not been collected.
    MissingPartialSignature,
    /// This signer's public key has not been collected.
    MissingPublicKey,
    /// This signer's partial signature does not verify.
    IncorrectPartialSignature,
    /// A binding factor digest is not a canonical scalar.
    InvalidBindingFactor,
    /// The challenge digest is not a canonical scalar.
    InvalidChallenge,
    /// No Lagrange coefficient exists for this signer.
    InvalidLagrangeInput,
}

impl AggregatorIssue {
    /// A description of the issue.
    pub fn message(&self) -> (r: &'static str)
        ensures
            *self == AggregatorIssue::MissingRemainingSigners ==> r@ == "Missing remaining signer(s)"@,
            *self == AggregatorIssue::MissingPartialSignature ==> r@ == "Missing partial signature"@,
            *self == AggregatorIssue::MissingPublicKey ==> r@ == "Missing public key"@,
            *self == AggregatorIssue::IncorrectPartialSignature ==> r@
                == "Incorrect partial signature"@,
            *self == AggregatorIssue::InvalidBindingFactor ==> r@ == "Invalid binding factor"@,
            *self == AggregatorIssue::InvalidChallenge ==> r@ == "Invalid challenge"@,
            *self == AggregatorIssue::InvalidLagrangeInput ==> r@ == "Duplicate shares provided"@,
    {
        match self {
            AggregatorIssue::MissingRemainingSigners => "Missing remaining signer(s)",
            AggregatorIssue::MissingPartialSignature => "Missing partial signature",
            AggregatorIssue::MissingPublicKey => "Missing public key",
            AggregatorIssue::IncorrectPartialSignature => "Incorrect partial signature",
            AggregatorIssue::InvalidBindingFactor => "Invalid binding factor",
            AggregatorIssue::InvalidChallenge => "Invalid challenge",
            AggregatorIssue::InvalidLagrangeInput => "Duplicate shares provided",
        }
    }
}

/// The state that an aggregator keeps across its phases.
#[derive(Debug)]
pub(crate) struct AggregatorState {
    pub(crate) parameters: FrostInfo,
    pub(crate) signers: Vec<Signer>,
    pub(crate) public_keys: HashMap<u32, Point>,
    pub(crate) partial_signatures: HashMap<u32, Scalar>,
    pub(crate) group_key: GroupKey,
}

/// An untrusted party that gathers the signers' commitments and partial
/// signatures and makes the threshold signature.
#[derive(Debug)]
pub struct SignatureAggregator<A: Aggregator> {
    pub(crate) state: AggregatorState,
    pub(crate) aggregator: A,
}

/// `k` is the first position of a signer with index `i`.
pub open spec fn first_signer_position(s: Seq<Signer>, i: u32, k: int) -> bool {
    &&& 0 <= k < s.len()
    &&& s[k].participant_index == i
    &&& forall|l: int| 0 <= l < k ==> (#[trigger] s[l]).participant_index != i
}

/// `new` is `old` sorted by index with repeated indices dropped: ascending,
/// the same indices, and for each index the signer first given with it.
pub open spec fn canonical_signers(old: Seq<Signer>, new: Seq<Signer>) -> bool {
    &&& strictly_ascending(signer_indices(new))
    &&& forall|x: u32| signer_indices(old).contains(x) <==> signer_indices(new).contains(x)
    &&& forall|k: int| 0 <= k < new.len() ==> first_given(old, #[trigger] new[k])
}

/// `x` is the first signer given in `s` with its index.
pub open spec fn first_given(s: Seq<Signer>, x: Signer) -> bool {
    exists|l: int| first_signer_position(s, x.participant_index, l) && s[l] == x
}

/// A signer included any number of times appears once in the canonical
/// list: where `new` is `old` canonicalized (as `get_signers` leaves it) and
/// `old` holds index `i`, exactly one entry of `new` has index `i`.
pub proof fn lemma_signer_listed_once(old: Seq<Signer>, new: Seq<Signer>, i: u32)
    requires
        canonical_signers(old, new),
        signer_indices(old).contains(i),
    ensures
        exists|k: int|
            0 <= k < new.len() && (#[trigger] new[k]).participant_index == i && forall|l: int|
                0 <= l < new.len() && (#[trigger] new[l]).participant_index == i ==> l == k,
{
    assert(signer_indices(new).contains(i));
    let k = choose|k: int| 0 <= k < signer_indices(new).len() && signer_indices(new)[k] == i;
    assert(new[k].participant_index == i);
    assert forall|l: int|
        0 <= l < new.len() && (#[trigger] new[l]).participant_index == i implies l == k by {
        assert(signer_indices(new)[l] == i);
        if l < k {
            assert(signer_indices(new)[l] < signer_indices(new)[k]);
        } else if l > k {
            assert(signer_indices(new)[k] < signer_indices(new)[l]);
        }
    }
}

/// The signers of `s` that have no partial signature in `partials`, in order.
pub open spec fn without_partials(s: Seq<Signer>, partials: Map<u32, Scalar>) -> Seq<Signer>
    decreases s.len(),
{
    if s.len() == 0 {
        Seq::empty()
    } else if partials.contains_key(s.last().participant_index) {
        without_partials(s.drop_last(), partials)
    } else {
        without_partials(s.drop_last(), partials).push(s.last())
    }
}

/// The first position of a signer with index `i`, if any.
fn find_first_signer(s: &Vec<Signer>, i: u32) -> (r: Option<usize>)
    ensures
        r is Some ==> first_signer_position(s@, i, r.unwrap() as int),
        r is None ==> forall|l: int| 0 <= l < s@.len() ==> (#[trigger] s@[l]).participant_index != i,
{
    let mut k: usize = 0;
    while k < s.len()
        invariant
            0 <= k <= s@.len(),
            forall|l: int| 0 <= l < k ==> (#[trigger] s@[l]).participant_index != i,
        decreases s@.len() - k,
    {
        if s[k].participant_index == i {
            return Some(k);
        }
        k = k + 1;
    }
    None
}

/// The signers sorted by index, keeping the first signer given for each
/// index.
fn canonicalize(s: &Vec<Signer>) -> (r: Vec<Signer>)
    ensures
        canonical_signers(s@, r@),
{
    let mut indices: Vec<u32> = Vec::new();
    let mut k: usize = 0;
    while k < s.len()
        invariant
            0 <= k <= s@.len(),
            indices@ == signer_indices(s@).subrange(0, k as int),
        decreases s@.len() - k,
    {
        indices.push(s[k].participant_index);
        k = k + 1;
        assert(indices@ =~= signer_indices(s@).subrange(0, k as int));
    }
    assert(indices@ =~= signer_indices(s@));
    let sorted = sorted_unique(&indices);
    let mut r: Vec<Signer> = Vec::new();
    let mut j: usize = 0;
    while j < sorted.len()
        invariant
            0 <= j <= sorted@.len(),
            indices@ == signer_indices(s@),
            strictly_ascending(sorted@),
            forall|x: u32| indices@.contains(x) <==> sorted@.contains(x),
            r@.len() == j,
            forall|k: int| 0 <= k < j ==> (#[trigger] r@[k]).participant_index == sorted@[k],
            forall|k: int| 0 <= k < j ==> first_given(s@, #[trigger] r@[k]),
        decreases sorted@.len() - j,
    {
        let u = sorted[j];
        proof {
            assert(sorted@.contains(u));
            let l = choose|l: int| 0 <= l < indices@.len() && indices@[l] == u;
            assert(s@[l].participant_index == u);
        }
        match find_first_signer(s, u) {
            None => {},
            Some(l) => {
                r.push(s[l]);
                proof {
                    assert(first_signer_position(s@, r@[j as int].participant_index, l as int));
                    assert(first_given(s@, r@[j as int]));
                }
            },
        }
        j = j + 1;
    }
    assert(signer_indices(r@) =~= sorted@);
    r
}

/// Every signer has both a public key and a partial signature.
pub open spec fn collection_complete(
    signers: Seq<Signer>,
    public_keys: Map<u32, Point>,
    partials: Map<u32, Scalar>,
) -> bool {
    forall|x: u32|
        signer_indices(signers).contains(x) ==> public_keys.contains_key(x)
            && partials.contains_key(x)
}

/// The issue that `finalize` records for the signer index `x`.
pub open spec fn finalize_issue(
    public_keys: Map<u32, Point>,
    partials: Map<u32, Scalar>,
    x: u32,
) -> AggregatorIssue {
    if !public_keys.contains_key(x) {
        AggregatorIssue::MissingPublicKey
    } else {
        AggregatorIssue::MissingPartialSignature
    }
}

/// The signers left out by `without_partials` are exactly those with a
/// partial signature.
proof fn lemma_without_partials(s: Seq<Signer>, partials: Map<u32, Scalar>)
    ensures
        forall|x: u32|
            signer_indices(without_partials(s, partials)).contains(x) <==> (signer_indices(
                s,
            ).contains(x) && !partials.contains_key(x)),
    decreases s.len(),
{
    if s.len() > 0 {
        let w = without_partials(s.drop_last(), partials);
        lemma_without_partials(s.drop_last(), partials);
        assert forall|x: u32|
            signer_indices(without_partials(s, partials)).contains(x) <==> (signer_indices(
                s,
            ).contains(x) && !partials.contains_key(x)) by {
            let si = signer_indices(s);
            let di = signer_indices(s.drop_last());
            assert(di =~= si.drop_last());
            if si.contains(x) {
                let l = choose|l: int| 0 <= l < si.len() && si[l] == x;
                if l < si.len() - 1 {
                    assert(di[l] == x);
                }
            }
            if di.contains(x) {
                let l = choose|l: int| 0 <= l < di.len() && di[l] == x;
                assert(si[l] == x);
            }
            if !partials.contains_key(s.last().participant_index) {
                let wi = signer_indices(w.push(s.last()));
                assert(wi =~= signer_indices(w).push(s.last().participant_index));
                if signer_indices(w).contains(x) {
                    let wi0 = signer_indices(w);
                    let l = choose|l: int| 0 <= l < wi0.len() && wi0[l] == x;
                    assert(wi[l] == x);
                }
                if wi.contains(x) {
                    let l = choose|l: int| 0 <= l < wi.len() && wi[l] == x;
                    if l < wi.len() - 1 {
                        assert(signer_indices(w)[l] == x);
                    }
                }
                assert(si[si.len() - 1] == s.last().participant_index);
                assert(wi[wi.len() - 1] == s.last().participant_index);
            }
        }
    }
}

impl<A: Aggregator> SignatureAggregator<A> {
    /// The signers included so far, in their current order.
    pub closed spec fn signers(&self) -> Seq<Signer> {
        self.state.signers@
    }

    /// The signers' public keys, by index.
    pub closed spec fn public_keys(&self) -> Map<u32, Point> {
        self.state.public_keys@
    }

    /// The partial signatures collected so far, by index.
    pub closed spec fn partial_signatures(&self) -> Map<u32, Scalar> {
        self.state.partial_signatures@
    }

    /// The group key.
    pub closed spec fn group_key(&self) -> GroupKey {
        self.state.group_key
    }

    /// The protocol's parameters.
    pub closed spec fn parameters(&self) -> FrostInfo {
        self.state.parameters
    }
}

impl SignatureAggregator<Initial> {
    /// The context string.
    pub closed spec fn context(&self) -> Seq<u8> {
        self.aggregator.context@
    }

    /// The message to be signed.
    pub closed spec fn message(&self) -> Seq<u8> {
        self.aggregator.message@
    }

    /// A new aggregator for signing `message` under `context` with the
    /// group's key: no signers, keys or partial signatures yet.
    pub fn new(parameters: FrostInfo, group_key: GroupKey, context: Vec<u8>, message: Vec<u8>) -> (r:
        SignatureAggregator<Initial>)
        ensures
            r.signers() == Seq::<Signer>::empty(),
            r.public_keys() == Map::<u32, Point>::empty(),
            r.partial_signatures() == Map::<u32, Scalar>::empty(),
            r.group_key() == group_key,
            r.parameters() == parameters,
            r.context() == context@,
            r.message() == message@,
    {
        let state = AggregatorState {
            parameters,
            signers: Vec::new(),
            public_keys: HashMap::new(),
            partial_signatures: HashMap::new(),
            group_key,
        };
        SignatureAggregator { state, aggregator: Initial { context, message } }
    }

    /// Includes a signer with its published commitment share and its public
    /// key, which must be for the same index. A public key given again for
    /// an index replaces the earlier one.
    pub fn include_signer(
        &mut self,
        participant_index: u32,
        published_commitment_share: (Point, Point),
        public_key: IndividualPublicKey,
    )
        requires
            participant_index == public_key.index,
        ensures
            final(self).signers() == old(self).signers().push(
                Signer { participant_index, published_commitment_share },
            ),
            final(self).public_keys() == old(self).public_keys().insert(
                participant_index,
                public_key.share,
            ),
            final(self).partial_signatures() == old(self).partial_signatures(),
            final(self).group_key() == old(self).group_key(),
            final(self).parameters() == old(self).parameters(),
            final(self).context() == old(self).context(),
            final(self).message() == old(self).message(),
    {
        self.state.signers.push(Signer { participant_index, published_commitment_share });
        self.state.public_keys.insert(public_key.index, public_key.share);
    }

    /// Sorts the signers by index and drops repeated indices, keeping the
    /// signer first given for each; later reads see this order.
    pub fn get_signers(&mut self) -> (r: &Vec<Signer>)
        ensures
            canonical_signers(old(self).signers(), final(self).signers()),
            r@ == final(self).signers(),
            final(self).public_keys() == old(self).public_keys(),
            final(self).partial_signatures() == old(self).partial_signatures(),
            final(self).group_key() == old(self).group_key(),
            final(self).parameters() == old(self).parameters(),
            final(self).context() == old(self).context(),
            final(self).message() == old(self).message(),
    {
        self.state.signers = canonicalize(&self.state.signers);
        &self.state.signers
    }

    /// The signers who have not yet contributed a partial signature, sorted
    /// by index without repeats.
    pub fn get_remaining_signers(&self) -> (r: Vec<Signer>)
        ensures
            canonical_signers(without_partials(self.signers(), self.partial_signatures()), r@),
    {
        let s = &self.state.signers;
        let mut remaining: Vec<Signer> = Vec::new();
        let mut k: usize = 0;
        while k < s.len()
            invariant
                0 <= k <= s@.len(),
                remaining@ == without_partials(s@.subrange(0, k as int), self.partial_signatures()),
                self.partial_signatures() == self.state.partial_signatures@,
            decreases s@.len() - k,
        {
            assert(s@.subrange(0, k + 1).drop_last() =~= s@.subrange(0, k as int));
            if !self.state.partial_signatures.contains_key(&s[k].participant_index) {
                remaining.push(s[k]);
            }
            k = k + 1;
        }
        assert(s@.subrange(0, k as int) =~= s@);
        canonicalize(&remaining)
    }

    /// Checks that the aggregator can aggregate: every signer has a public
    /// key and a partial signature. On success the signers are sorted by
    /// index without repeats and the message hash is fixed. Otherwise the
    /// error maps each signer index with something missing to what is
    /// missing, and index 0 to a note that partial signatures are missing.
    pub fn finalize(self) -> (r: Result<
        SignatureAggregator<Finalized>,
        HashMap<u32, AggregatorIssue>,
    >)
        ensures
            r is Ok <==> collection_complete(
                self.signers(),
                self.public_keys(),
                self.partial_signatures(),
            ),
            r is Ok ==> {
                let f = r.unwrap();
                &&& canonical_signers(self.signers(), f.signers())
                &&& f.public_keys() == self.public_keys()
                &&& f.partial_signatures() == self.partial_signatures()
                &&& f.group_key() == self.group_key()
                &&& f.parameters() == self.parameters()
                &&& f.message_hash() == keccak256(self.context() + self.message())
            },
            r is Err ==> {
                let m = r->Err_0@;
                &&& forall|x: u32|
                    x != 0 ==> (m.contains_key(x) <==> signer_indices(self.signers()).contains(x)
                        && (!self.public_keys().contains_key(x)
                        || !self.partial_signatures().contains_key(x)))
                &&& forall|x: u32|
                    x != 0 && #[trigger] m.contains_key(x) ==> m[x] == finalize_issue(
                        self.public_keys(),
                        self.partial_signatures(),
                        x,
                    )
                &&& (exists|x: u32|
                    signer_indices(self.signers()).contains(x)
                        && !#[trigger] self.partial_signatures().contains_key(x)) ==> m.contains_key(
                    0,
                )
                &&& !signer_indices(self.signers()).contains(0) ==> (m.contains_key(0) <==> exists|
                    x: u32,
                |
                    signer_indices(self.signers()).contains(x)
                        && !#[trigger] self.partial_signatures().contains_key(x))
                &&& !signer_indices(self.signers()).contains(0) && m.contains_key(0) ==> m[0]
                    == AggregatorIssue::MissingRemainingSigners
            },
    {
        let ghost signers0 = self.signers();
        let ghost pks = self.public_keys();
        let ghost partials = self.partial_signatures();
        let remaining = self.get_remaining_signers();
        let ghost zero_free = !signer_indices(signers0).contains(0);
        proof {
            lemma_without_partials(signers0, partials);
            assert forall|x: u32|
                #[trigger] signer_indices(remaining@).contains(x) implies signer_indices(
                    signers0,
                ).contains(x) && !partials.contains_key(x) by {
                assert(signer_indices(without_partials(signers0, partials)).contains(x));
            }
            if exists|x: u32|
                signer_indices(signers0).contains(x) && !#[trigger] partials.contains_key(x) {
                let x = choose|x: u32|
                    signer_indices(signers0).contains(x) && !#[trigger] partials.contains_key(x);
                assert(signer_indices(without_partials(signers0, partials)).contains(x));
                assert(signer_indices(remaining@).contains(x));
            }
            if remaining@.len() > 0 {
                let x = remaining@[0].participant_index;
                assert(signer_indices(remaining@)[0] == x);
                assert(signer_indices(remaining@).contains(x));
            }
        }
        let mut issues: HashMap<u32, AggregatorIssue> = HashMap::new();
        let mut any: bool = false;
        if remaining.len() > 0 {
            issues.insert(0, AggregatorIssue::MissingRemainingSigners);
            any = true;
            proof {
                let x = remaining@[0].participant_index;
                assert(signer_indices(remaining@)[0] == x);
                assert(signer_indices(remaining@).contains(x));
                assert(signer_indices(without_partials(signers0, partials)).contains(x));
                assert(signer_indices(signers0).contains(x) && !partials.contains_key(x));
                assert(!collection_complete(signers0, pks, partials));
            }
        }
        let mut k: usize = 0;
        while k < remaining.len()
            invariant
                0 <= k <= remaining@.len(),
                remaining@.len() > 0 ==> any && issues@.contains_key(0),
                forall|x: u32|
                    #[trigger] signer_indices(remaining@).contains(x) ==> signer_indices(
                        signers0,
                    ).contains(x),
                zero_free == !signer_indices(signers0).contains(0),
                zero_free ==> (issues@.contains_key(0) <==> remaining@.len() > 0),
                zero_free && issues@.contains_key(0) ==> issues@[0]
                    == AggregatorIssue::MissingRemainingSigners,
                any ==> !collection_complete(signers0, pks, partials),
                !any ==> issues@ == Map::<u32, AggregatorIssue>::empty(),
                forall|x: u32|
                    x != 0 ==> (issues@.contains_key(x) <==> signer_indices(
                        remaining@.subrange(0, k as int),
                    ).contains(x)),
                forall|x: u32|
                    x != 0 && #[trigger] issues@.contains_key(x) ==> issues@[x]
                        == AggregatorIssue::MissingPartialSignature,
            decreases remaining@.len() - k,
        {
            let x = remaining[k].participant_index;
            proof {
                assert(signer_indices(remaining@)[k as int] == x);
                assert(signer_indices(remaining@).contains(x));
            }
            issues.insert(x, AggregatorIssue::MissingPartialSignature);
            proof {
                let a = signer_indices(remaining@.subrange(0, k as int));
                let b = signer_indices(remaining@.subrange(0, k + 1));
                assert(b =~= a.push(x));
                assert forall|y: u32| b.contains(y) <==> (a.contains(y) || y == x) by {
                    if b.contains(y) {
                        let l = choose|l: int| 0 <= l < b.len() && b[l] == y;
                        if l < a.len() {
                            assert(a[l] == y);
                        }
                    }
                    if a.contains(y) {
                        let l = choose|l: int| 0 <= l < a.len() && a[l] == y;
                        assert(b[l] == y);
                    }
                    assert(b[b.len() - 1] == x);
                }
            }
            k = k + 1;
        }
        assert(remaining@.subrange(0, k as int) =~= remaining@);
        let canonical = canonicalize(&self.state.signers);
        let mut k: usize = 0;
        while k < canonical.len()
            invariant
                0 <= k <= canonical.len(),
                canonical_signers(signers0, canonical@),
                pks == self.state.public_keys@,
                !any ==> issues@ == Map::<u32, AggregatorIssue>::empty(),
                remaining@.len() > 0 ==> any,
                any ==> !collection_complete(signers0, pks, partials),
                zero_free == !signer_indices(signers0).contains(0),
                zero_free ==> (issues@.contains_key(0) <==> remaining@.len() > 0),
                zero_free && issues@.contains_key(0) ==> issues@[0]
                    == AggregatorIssue::MissingRemainingSigners,
                (exists|x: u32|
                    signer_indices(signers0).contains(x) && !#[trigger] partials.contains_key(x))
                    <==> remaining@.len() > 0,
                canonical_signers(without_partials(signers0, partials), remaining@),
                forall|x: u32|
                    signer_indices(canonical@.subrange(0, k as int)).contains(x)
                        && !#[trigger] pks.contains_key(x) ==> any,
                forall|x: u32|
                    x != 0 ==> (issues@.contains_key(x) <==> ((signer_indices(signers0).contains(x)
                        && !partials.contains_key(x)) || (signer_indices(
                        canonical@.subrange(0, k as int),
                    ).contains(x) && !pks.contains_key(x)))),
                forall|x: u32|
                    x != 0 && #[trigger] issues@.contains_key(x) ==> issues@[x] == (if signer_indices(
                        canonical@.subrange(0, k as int),
                    ).contains(x) && !pks.contains_key(x) {
                        AggregatorIssue::MissingPublicKey
                    } else {
                        AggregatorIssue::MissingPartialSignature
                    }),
                (exists|x: u32|
                    signer_indices(signers0).contains(x) && !#[trigger] partials.contains_key(x))
                    ==> issues@.contains_key(0),
            decreases canonical@.len() - k,
        {
            let x = canonical[k].participant_index;
            let ghost a = signer_indices(canonical@.subrange(0, k as int));
            let ghost b = signer_indices(canonical@.subrange(0, k + 1));
            proof {
                assert(b =~= a.push(x));
                assert forall|y: u32| b.contains(y) <==> (a.contains(y) || y == x) by {
                    if b.contains(y) {
                        let l = choose|l: int| 0 <= l < b.len() && b[l] == y;
                        if l < a.len() {
                            assert(a[l] == y);
                        }
                    }
                    if a.contains(y) {
                        let l = choose|l: int| 0 <= l < a.len() && a[l] == y;
                        assert(b[l] == y);
                    }
                    assert(b[b.len() - 1] == x);
                }
            }
            if !self.state.public_keys.contains_key(&x) {
                issues.insert(x, AggregatorIssue::MissingPublicKey);
                any = true;
                proof {
                    assert(signer_indices(canonical@)[k as int] == x);
                    assert(signer_indices(signers0).contains(x));
                }
            }
            k = k + 1;
        }
        proof {
            assert(canonical@.subrange(0, k as int) =~= canonical@);
            assert forall|x: u32|
                signer_indices(canonical@).contains(x) <==> signer_indices(signers0).contains(
                    x,
                ) by {}
        }
        if any {
            return Err(issues);
        }
        proof {
            assert forall|x: u32| signer_indices(signers0).contains(x) implies pks.contains_key(x)
                && partials.contains_key(x) by {
                if !partials.contains_key(x) {
                    assert(signer_indices(without_partials(signers0, partials)).contains(x));
                    assert(signer_indices(remaining@).contains(x));
                }
                if !pks.contains_key(x) {
                    assert(signer_indices(canonical@).contains(x));
                }
            }
        }
        let message_hash = compute_message_hash(
            self.aggregator.context.as_slice(),
            self.aggregator.message.as_slice(),
        );
        let SignatureAggregator { state, aggregator: _ } = self;
        let AggregatorState { parameters, signers: _, public_keys, partial_signatures, group_key } =
            state;
        let state = AggregatorState {
            parameters,
            signers: canonical,
            public_keys,
            partial_signatures,
            group_key,
        };
        Ok(SignatureAggregator { state, aggregator: Finalized { message_hash } })
    }

    /// Adds a partial signature; one given again for an index replaces the
    /// earlier one.
    pub fn include_partial_signature(&mut self, partial_signature: PartialThresholdSignature)
        ensures
            final(self).partial_signatures() == old(self).partial_signatures().insert(
                partial_signature.index,
                partial_signature.z,
            ),
            final(self).signers() == old(self).signers(),
            final(self).public_keys() == old(self).public_keys(),
            final(self).group_key() == old(self).group_key(),
            final(self).parameters() == old(self).parameters(),
            final(self).context() == old(self).context(),
            final(self).message() == old(self).message(),
    {
        self.state.partial_signatures.insert(partial_signature.index, partial_signature.z);
    }
}

/// The partial signature `z` of a signer with public key `y` verifies:
/// `G^z = y^{-c·λ} · R_k`.
pub open spec fn partial_signature_valid(
    z: Scalar,
    y: Point,
    c: int,
    lambda: int,
    r_k: Seq<u8>,
) -> bool {
    base_times(z.value()) == point_sum(
        point_times(y.encoding(), (((group_order() - c) % group_order()) * lambda) % group_order()),
        r_k,
    )
}

/// Signer `k` has a Lagrange coefficient, a public key and a partial
/// signature, and the partial signature verifies.
pub open spec fn signer_passes(
    message_hash: Seq<u8>,
    group_key: Seq<u8>,
    signers: Seq<Signer>,
    public_keys: Map<u32, Point>,
    partials: Map<u32, Scalar>,
    k: int,
) -> bool {
    let i = signers[k].participant_index;
    &&& lagrange_defined(i, signer_indices(signers))
    &&& partials.contains_key(i)
    &&& public_keys.contains_key(i)
    &&& partial_signature_valid(
        partials[i],
        public_keys[i],
        challenge_value(message_hash, group_key, group_commitment(message_hash, signers)),
        lagrange_coefficient(i, signer_indices(signers)),
        signer_commitment(message_hash, signers, k),
    )
}

/// The issue that `aggregate` records for signer `k`, where it does not pass.
pub open spec fn aggregate_issue(
    signers: Seq<Signer>,
    public_keys: Map<u32, Point>,
    partials: Map<u32, Scalar>,
    k: int,
) -> AggregatorIssue {
    let i = signers[k].participant_index;
    if !lagrange_defined(i, signer_indices(signers)) {
        AggregatorIssue::InvalidLagrangeInput
    } else if !partials.contains_key(i) {
        AggregatorIssue::MissingPartialSignature
    } else if !public_keys.contains_key(i) {
        AggregatorIssue::MissingPublicKey
    } else {
        AggregatorIssue::IncorrectPartialSignature
    }
}

/// `m` flags exactly the signers that do not pass: every one that fails is
/// in it, and each index in it belongs to a signer that fails, with that
/// signer's issue.
pub open spec fn reports_failing_signers(
    message_hash: Seq<u8>,
    group_key: Seq<u8>,
    s: Seq<Signer>,
    public_keys: Map<u32, Point>,
    partials: Map<u32, Scalar>,
    m: Map<u32, AggregatorIssue>,
) -> bool {
    &&& forall|k: int|
        0 <= k < s.len() && !#[trigger] signer_passes(
            message_hash,
            group_key,
            s,
            public_keys,
            partials,
            k,
        ) ==> m.contains_key(s[k].participant_index)
    &&& forall|x: u32|
        #[trigger] m.contains_key(x) ==> exists|k: int|
            0 <= k < s.len() && s[k].participant_index == x && !signer_passes(
                message_hash,
                group_key,
                s,
                public_keys,
                partials,
                k,
            ) && m[x] == aggregate_issue(s, public_keys, partials, k)
}

/// One corrupted partial signature is reported alone: where the signers'
/// indices are distinct, every signer but `k` passes, and signer `k` has a
/// Lagrange coefficient, a public key and a partial signature that does not
/// verify, the report of `aggregate` holds `k`'s index only, as an incorrect
/// partial signature.
pub proof fn lemma_one_corrupted_partial_signature(
    message_hash: Seq<u8>,
    group_key: Seq<u8>,
    s: Seq<Signer>,
    public_keys: Map<u32, Point>,
    partials: Map<u32, Scalar>,
    m: Map<u32, AggregatorIssue>,
    k: int,
)
    requires
        reports_failing_signers(message_hash, group_key, s, public_keys, partials, m),
        strictly_ascending(signer_indices(s)),
        0 <= k < s.len(),
        !signer_passes(message_hash, group_key, s, public_keys, partials, k),
        lagrange_defined(s[k].participant_index, signer_indices(s)),
        public_keys.contains_key(s[k].participant_index),
        partials.contains_key(s[k].participant_index),
        forall|l: int|
            0 <= l < s.len() && l != k ==> #[trigger] signer_passes(
                message_hash,
                group_key,
                s,
                public_keys,
                partials,
                l,
            ),
    ensures
        m.dom() == set![s[k].participant_index],
        m[s[k].participant_index] == AggregatorIssue::IncorrectPartialSignature,
{
    let x = s[k].participant_index;
    assert(m.contains_key(x));
    assert forall|y: u32| m.contains_key(y) implies y == x by {
        let l = choose|l: int|
            0 <= l < s.len() && s[l].participant_index == y && !signer_passes(
                message_hash,
                group_key,
                s,
                public_keys,
                partials,
                l,
            ) && m[y] == aggregate_issue(s, public_keys, partials, l);
        assert(l == k);
    }
    assert(m.dom() =~= set![x]);
    let l = choose|l: int|
        0 <= l < s.len() && s[l].participant_index == x && !signer_passes(
            message_hash,
            group_key,
            s,
            public_keys,
            partials,
            l,
        ) && m[x] == aggregate_issue(s, public_keys, partials, l);
    assert(l == k);
}

/// The partial signatures of the first `n` signers, added in order modulo
/// the group order.
pub open spec fn sum_partials(signers: Seq<Signer>, partials: Map<u32, Scalar>, n: int) -> int
    decreases n,
{
    if n <= 0 {
        0
    } else {
        (sum_partials(signers, partials, n - 1) + partials[signers[n - 1].participant_index].value())
            % group_order()
    }
}

impl SignatureAggregator<Finalized> {
    /// The hash of the context and the message.
    pub closed spec fn message_hash(&self) -> Seq<u8> {
        self.aggregator.message_hash@
    }

    /// Aggregates the partial signatures into a threshold signature `(R, z)`
    /// with `z` the sum of the partial signatures. Each partial signature is
    /// checked against its signer's public key; every signer that fails is
    /// reported, in one pass, by index.
    pub fn aggregate(&self) -> (r: Result<ThresholdSignature, HashMap<u32, AggregatorIssue>>)
        ensures
            ({
                let mh = self.message_hash();
                let gk = self.group_key().0.encoding();
                let s = self.signers();
                let pks = self.public_keys();
                let ps = self.partial_signatures();
                let ready = binding_factors_canonical(mh, s) && challenge_defined(
                    mh,
                    gk,
                    group_commitment(mh, s),
                );
                &&& r is Ok <==> ready && forall|k: int|
                    0 <= k < s.len() ==> #[trigger] signer_passes(mh, gk, s, pks, ps, k)
                &&& r is Ok ==> r.unwrap().commitment().encoding() == group_commitment(mh, s)
                    && r.unwrap().response().value() == sum_partials(s, ps, s.len() as int)
                &&& r is Err && !binding_factors_canonical(mh, s) ==> r->Err_0@ == map![
                    0u32 => AggregatorIssue::InvalidBindingFactor,
                ]
                &&& r is Err && binding_factors_canonical(mh, s) && !challenge_defined(
                    mh,
                    gk,
                    group_commitment(mh, s),
                ) ==> r->Err_0@ == map![0u32 => AggregatorIssue::InvalidChallenge]
                &&& r is Err && ready ==> reports_failing_signers(mh, gk, s, pks, ps, r->Err_0@)
            }),
    {
        let message_hash = &self.aggregator.message_hash;
        let signers = &self.state.signers;
        let ghost mh = message_hash@;
        let ghost gk = self.state.group_key.0.encoding();
        let ghost pks = self.state.public_keys@;
        let ghost ps = self.state.partial_signatures@;
        let mut issues: HashMap<u32, AggregatorIssue> = HashMap::new();
        let (_, rs) = match compute_binding_factors_and_group_commitment(
            message_hash,
            signers.as_slice(),
        ) {
            None => {
                issues.insert(0, AggregatorIssue::InvalidBindingFactor);
                assert(issues@ =~= map![0u32 => AggregatorIssue::InvalidBindingFactor]);
                return Err(issues);
            },
            Some(x) => x,
        };
        let r_point = sum_commitments(&rs, message_hash, signers.as_slice());
        let c = match compute_challenge(message_hash, &self.state.group_key, &r_point) {
            None => {
                issues.insert(0, AggregatorIssue::InvalidChallenge);
                assert(issues@ =~= map![0u32 => AggregatorIssue::InvalidChallenge]);
                return Err(issues);
            },
            Some(c) => c,
        };
        let all_participant_indices = indices_of_signers(signers.as_slice());
        let mut z = Scalar::zero();
        let mut any: bool = false;
        let mut k: usize = 0;
        while k < signers.len()
            invariant
                0 <= k <= signers@.len(),
                mh == self.message_hash(),
                gk == self.group_key().0.encoding(),
                signers@ == self.signers(),
                pks == self.public_keys(),
                ps == self.partial_signatures(),
                pks == self.state.public_keys@,
                ps == self.state.partial_signatures@,
                all_participant_indices@ == signer_indices(signers@),
                rs@.len() == signers@.len(),
                forall|j: int|
                    0 <= j < signers@.len() ==> (#[trigger] rs@[j]).encoding() == signer_commitment(
                        mh,
                        signers@,
                        j,
                    ),
                c.value() == challenge_value(mh, gk, group_commitment(mh, signers@)),
                !any ==> issues@ == Map::<u32, AggregatorIssue>::empty(),
                !any ==> forall|j: int|
                    0 <= j < k ==> #[trigger] signer_passes(mh, gk, signers@, pks, ps, j),
                !any ==> z.value() == sum_partials(signers@, ps, k as int),
                any ==> exists|j: int|
                    0 <= j < k && !#[trigger] signer_passes(mh, gk, signers@, pks, ps, j),
                forall|j: int|
                    0 <= j < k && !#[trigger] signer_passes(mh, gk, signers@, pks, ps, j)
                        ==> issues@.contains_key(signers@[j].participant_index),
                forall|x: u32|
                    #[trigger] issues@.contains_key(x) ==> exists|j: int|
                        0 <= j < k && signers@[j].participant_index == x && !signer_passes(
                            mh,
                            gk,
                            signers@,
                            pks,
                            ps,
                            j,
                        ) && issues@[x] == aggregate_issue(signers@, pks, ps, j),
            decreases signers@.len() - k,
        {
            let x = signers[k].participant_index;
            let mut issue: Option<AggregatorIssue> = None;
            match calculate_lagrange_coefficients(x, all_participant_indices.as_slice()) {
                Err(_) => {
                    issue = Some(AggregatorIssue::InvalidLagrangeInput);
                },
                Ok(lambda) => match self.state.partial_signatures.get(&x) {
                    None => {
                        issue = Some(AggregatorIssue::MissingPartialSignature);
                    },
                    Some(z_i) => match self.state.public_keys.get(&x) {
                        None => {
                            issue = Some(AggregatorIssue::MissingPublicKey);
                        },
                        Some(y_i) => {
                            let check = Point::base_mul(z_i);
                            let expected = y_i.mul(&c.neg().mul(&lambda)).add(&rs[k]);
                            if check.equals(&expected) {
                                z = z.add(z_i);
                            } else {
                                issue = Some(AggregatorIssue::IncorrectPartialSignature);
                            }
                        },
                    },
                },
            }
            proof {
                assert(issue is None <==> signer_passes(mh, gk, signers@, pks, ps, k as int));
                assert(issue is Some ==> issue.unwrap() == aggregate_issue(
                    signers@,
                    pks,
                    ps,
                    k as int,
                ));
            }
            match issue {
                None => {},
                Some(i) => {
                    issues.insert(x, i);
                    any = true;
                },
            }
            proof {
                assert forall|y: u32| #[trigger] issues@.contains_key(y) implies exists|j: int|
                    0 <= j < k + 1 && signers@[j].participant_index == y && !signer_passes(
                        mh,
                        gk,
                        signers@,
                        pks,
                        ps,
                        j,
                    ) && issues@[y] == aggregate_issue(signers@, pks, ps, j) by {
                    if issue is Some && y == x {
                        assert(signers@[k as int].participant_index == y);
                    }
                }
            }
            k = k + 1;
        }
        if any {
            return Err(issues);
        }
        Ok(ThresholdSignature::from_parts(r_point, z))
    }
}

} // verus!
