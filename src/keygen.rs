//! Distributed key generation: Feldman verifiable secret sharing with a proof
//! of knowledge of each participant's constant term, run as two rounds.
use vstd::prelude::*;
use crate::nizk::{made_with_nonce, nizk_accepts, NizkOfSecretKey};
use crate::point::{base_times, identity_encoding, point_sum, point_times, Point};
use crate::scalar::{group_order, Scalar};
use crate::sorting::{all_distinct, has_no_duplicates, sorted_unique, strictly_ascending};

verus! {

/// The parameters of a `t`-of-`n` instance of the protocol.
#[derive(Clone, Copy, Debug)]
pub struct FrostInfo {
    /// The threshold `t`: how many signers a signature needs.
    pub thresholdvalue: u8,
    /// The number `n` of participants.
    pub totalvalue: u8,
}

/// Why a round of key generation failed.
#[derive(Clone, Copy, Debug, PartialEq, Eq, Structural)]
pub enum KeygenError {
    /// The inputs do not fit the parameters (counts, lengths, indices).
    ParameterMismatch,
    /// The proof of knowledge of this participant's secret key is invalid.
    ProofInvalid(u32),
    /// The secret share from this participant does not match its
    /// commitments.
    ShareVerificationFailed(u32),
}

/// `c[0] + x·(c[1] + x·(c[2] + …))` modulo the group order: Horner's
/// evaluation of the polynomial with coefficients `c` at `x`.
pub open spec fn poly_eval(c: Seq<Scalar>, x: int) -> int
    decreases c.len(),
{
    if c.len() == 0 {
        0
    } else {
        (c[0].value() + (x * poly_eval(c.drop_first(), x)) % group_order()) % group_order()
    }
}

/// `C[0] + x·(C[1] + x·(C[2] + …))` in the group: the commitment to a
/// polynomial's value at `x`, computed from the commitments `C[k] = G^{c[k]}`.
pub open spec fn feldman_eval(c: Seq<Point>, x: int) -> Seq<u8>
    decreases c.len(),
{
    if c.len() == 0 {
        identity_encoding()
    } else {
        point_sum(c[0].encoding(), point_times(feldman_eval(c.drop_first(), x), x))
    }
}

/// The coefficients of a participant's secret polynomial, constant term
/// first.
#[derive(Debug)]
pub struct Coefficients(pub(crate) Vec<Scalar>);

impl Coefficients {
    /// The coefficients, constant term first.
    pub closed spec fn view(&self) -> Seq<Scalar> {
        self.0@
    }

    /// Overwrites every coefficient with zero.
    pub fn zeroize(&mut self)
        ensures
            final(self)@.len() == old(self)@.len(),
            forall|k: int| 0 <= k < final(self)@.len() ==> #[trigger] final(self)@[k].value() == 0,
    {
        let mut k: usize = 0;
        while k < self.0.len()
            invariant
                0 <= k <= self.0@.len(),
                self.0@.len() == old(self).0@.len(),
                forall|j: int| 0 <= j < k ==> #[trigger] self.0@[j].value() == 0,
            decreases self.0@.len() - k,
        {
            let mut c = self.0[k];
            c.wipe();
            self.0.set(k, c);
            k = k + 1;
        }
    }
}

/// A copy of the scalars.
fn copy_scalars(v: &Vec<Scalar>) -> (r: Vec<Scalar>)
    ensures
        r@ == v@,
{
    let mut r: Vec<Scalar> = Vec::new();
    let mut k: usize = 0;
    while k < v.len()
        invariant
            0 <= k <= v@.len(),
            r@ == v@.subrange(0, k as int),
        decreases v@.len() - k,
    {
        r.push(v[k]);
        k = k + 1;
        assert(r@ =~= v@.subrange(0, k as int));
    }
    assert(v@.subrange(0, k as int) =~= v@);
    r
}

/// The value at `x` of the polynomial with coefficients `c`, by Horner's
/// method.
pub fn evaluate_polynomial(c: &Vec<Scalar>, x: u32) -> (r: Scalar)
    ensures
        r.value() == poly_eval(c@, x as int),
{
    let term = Scalar::from_u32(x);
    let mut acc = Scalar::zero();
    let mut k: usize = c.len();
    while k > 0
        invariant
            0 <= k <= c@.len(),
            term.value() == x,
            acc.value() == poly_eval(c@.subrange(k as int, c@.len() as int), x as int),
        decreases k,
    {
        assert(c@.subrange(k - 1, c@.len() as int).drop_first() =~= c@.subrange(
            k as int,
            c@.len() as int,
        ));
        acc = c[k - 1].add(&term.mul(&acc));
        k = k - 1;
    }
    assert(c@.subrange(0, c@.len() as int) =~= c@);
    acc
}

/// The commitment to a polynomial's value at `x`, from the commitments to
/// its coefficients, by Horner's method in the group.
pub fn evaluate_commitments(c: &Vec<Point>, x: u32) -> (r: Point)
    ensures
        r.encoding() == feldman_eval(c@, x as int),
{
    let term = Scalar::from_u32(x);
    let mut acc = Point::identity();
    let mut k: usize = c.len();
    while k > 0
        invariant
            0 <= k <= c@.len(),
            term.value() == x,
            acc.encoding() == feldman_eval(c@.subrange(k as int, c@.len() as int), x as int),
        decreases k,
    {
        assert(c@.subrange(k - 1, c@.len() as int).drop_first() =~= c@.subrange(
            k as int,
            c@.len() as int,
        ));
        acc = c[k - 1].add(&acc.mul(&term));
        k = k - 1;
    }
    assert(c@.subrange(0, c@.len() as int) =~= c@);
    acc
}

/// A participant's public announcement: its index, the commitments
/// `G^{a_0} … G^{a_{t-1}}` to its polynomial, and a proof that it knows
/// `a_0`.
#[derive(Clone, Debug)]
pub struct Participant {
    /// The participant's index, nonzero.
    pub index: u32,
    /// The commitments to the coefficients, constant term first.
    pub commitments: Vec<Point>,
    /// The proof of knowledge of the constant term.
    pub proof_of_secret_key: NizkOfSecretKey,
}

impl Participant {
    /// Starts key generation for participant `index`: draws a random
    /// polynomial of `t` coefficients, commits to each and proves knowledge
    /// of the constant term. `None` where the proof's challenge digest is
    /// not a canonical scalar.
    pub fn new(parameters: &FrostInfo, index: u32) -> (r: Option<(Participant, Coefficients)>)
        requires
            parameters.thresholdvalue >= 1,
        ensures
            r is Some ==> {
                let (p, c) = r.unwrap();
                &&& p.index == index
                &&& c@.len() == parameters.thresholdvalue
                &&& p.commitments@.len() == parameters.thresholdvalue
                &&& forall|k: int|
                    0 <= k < c@.len() ==> #[trigger] p.commitments@[k].encoding() == base_times(
                        c@[k].value(),
                    )
                &&& exists|k: int|
                    #[trigger] made_with_nonce(
                        p.proof_of_secret_key,
                        index,
                        c@[0].value(),
                        p.commitments@[0].encoding(),
                        k,
                    )
            },
    {
        let t = parameters.thresholdvalue as usize;
        let mut coefficients: Vec<Scalar> = Vec::new();
        let mut commitments: Vec<Point> = Vec::new();
        let mut k: usize = 0;
        while k < t
            invariant
                0 <= k <= t,
                coefficients@.len() == k,
                commitments@.len() == k,
                forall|j: int|
                    0 <= j < k ==> #[trigger] commitments@[j].encoding() == base_times(
                        coefficients@[j].value(),
                    ),
            decreases t - k,
        {
            let a = Scalar::random();
            coefficients.push(a);
            commitments.push(Point::base_mul(&a));
            k = k + 1;
        }
        match NizkOfSecretKey::prove(index, &coefficients[0], &commitments[0]) {
            None => None,
            Some(proof) => {
                let ghost a0 = coefficients@[0].value();
                let ghost big_a0 = commitments@[0].encoding();
                let ghost k = choose|k: int| #[trigger] made_with_nonce(proof, index, a0, big_a0, k);
                let p = Participant { index, commitments, proof_of_secret_key: proof };
                let c = Coefficients(coefficients);
                assert(c@[0].value() == a0);
                assert(made_with_nonce(
                    p.proof_of_secret_key,
                    index,
                    c@[0].value(),
                    p.commitments@[0].encoding(),
                    k,
                ));
                Some((p, c))
            },
        }
    }

    /// The participant's public key: its commitment to the constant term.
    pub fn public_key(&self) -> (r: Option<Point>)
        ensures
            r is Some <==> self.commitments@.len() > 0,
            r is Some ==> r.unwrap() == self.commitments@[0],
    {
        if self.commitments.len() > 0 {
            Some(self.commitments[0])
        } else {
            None
        }
    }
}

/// Creates participant `id` for the parameters, with the compressed
/// encoding of its public key. `None` where the proof's challenge digest is
/// not a canonical scalar.
pub fn create_participant(frost_info: FrostInfo, id: u8) -> (r: Option<
    (Participant, [u8; 33], Coefficients),
>)
    requires
        frost_info.thresholdvalue >= 1,
    ensures
        r is Some ==> {
            let (p, key, c) = r.unwrap();
            &&& p.index == id
            &&& p.commitments@.len() == frost_info.thresholdvalue
            &&& c@.len() == frost_info.thresholdvalue
            &&& key@ == p.commitments@[0].encoding()
            &&& key@ == base_times(c@[0].value())
        },
{
    match Participant::new(&frost_info, id as u32) {
        None => None,
        Some((party, coefficients)) => {
            let public_bytes = party.commitments[0].to_bytes();
            Some((party, public_bytes, coefficients))
        },
    }
}

/// A share of a participant's secret polynomial, evaluated at the index of
/// the participant who receives it.
#[derive(Clone, Copy, Debug)]
pub struct SecretShare {
    /// The index of the receiving participant.
    pub index: u32,
    /// The sender's polynomial evaluated at `index`.
    pub polynomial_evaluation: Scalar,
}

/// Whether the inputs of the first round fit together: `1 ≤ t ≤ n`, `t`
/// coefficients, `n - 1` other participants with `t` commitments each, and
/// all indices nonzero and distinct.
pub open spec fn round_one_consistent(
    parameters: FrostInfo,
    my_index: u32,
    coefficients: Seq<Scalar>,
    others: Seq<Participant>,
) -> bool {
    &&& coefficients.len() == parameters.thresholdvalue
    &&& participants_consistent(parameters, my_index, others)
}

/// Whether the participants fit the parameters: `1 ≤ t ≤ n`, `n - 1` other
/// participants with `t` commitments each, and all indices nonzero and
/// distinct.
pub open spec fn participants_consistent(
    parameters: FrostInfo,
    my_index: u32,
    others: Seq<Participant>,
) -> bool {
    &&& 1 <= parameters.thresholdvalue <= parameters.totalvalue
    &&& others.len() + 1 == parameters.totalvalue
    &&& my_index != 0
    &&& forall|k: int|
        0 <= k < others.len() ==> participant_fits(
            #[trigger] others[k],
            my_index,
            parameters.thresholdvalue,
        )
    &&& all_distinct(indices_of(others))
}

/// Another participant fits: its index is nonzero and not `my_index`, and
/// it has `t` commitments.
pub open spec fn participant_fits(p: Participant, my_index: u32, t: u8) -> bool {
    p.index != 0 && p.index != my_index && p.commitments@.len() == t
}

/// The indices of the participants, in order.
pub open spec fn indices_of(others: Seq<Participant>) -> Seq<u32> {
    others.map_values(|p: Participant| p.index)
}

/// The proof of every participant in `others` is accepted.
pub open spec fn all_proofs_accepted(others: Seq<Participant>) -> bool {
    forall|k: int|
        0 <= k < others.len() ==> nizk_accepts(
            #[trigger] others[k].proof_of_secret_key,
            others[k].index,
            others[k].commitments@[0].encoding(),
        )
}

/// The first round of key generation.
#[derive(Debug)]
pub struct RoundOne {
    pub(crate) parameters: FrostInfo,
    pub(crate) index: u32,
    pub(crate) coefficients: Vec<Scalar>,
    pub(crate) participants: Vec<Participant>,
    pub(crate) their_secret_shares: Vec<SecretShare>,
}

impl RoundOne {
    /// The inputs were checked, and the shares are those of the polynomial.
    #[verifier::type_invariant]
    spec fn checked(&self) -> bool {
        &&& round_one_consistent(
            self.parameters,
            self.index,
            self.coefficients@,
            self.participants@,
        )
        &&& shares_for(self.coefficients@, self.participants@, self.their_secret_shares@)
    }
}

/// The second round of key generation, once every share has been checked.
#[derive(Debug)]
pub struct RoundTwo {
    pub(crate) parameters: FrostInfo,
    pub(crate) index: u32,
    pub(crate) own_share: Scalar,
    pub(crate) participants: Vec<Participant>,
    pub(crate) my_secret_shares: Vec<SecretShare>,
}

impl RoundTwo {
    /// The inputs were checked, and one share came from each other
    /// participant.
    #[verifier::type_invariant]
    spec fn checked(&self) -> bool {
        &&& participants_consistent(self.parameters, self.index, self.participants@)
        &&& self.my_secret_shares@.len() == self.participants@.len()
    }
}

/// A participant's state in key generation, in round `S`.
#[derive(Debug)]
pub struct DistributedKeyGeneration<S> {
    pub(crate) state: S,
}

/// The shares that a participant with `coefficients` sends to `others`,
/// one for each, in their order.
pub open spec fn shares_for(
    coefficients: Seq<Scalar>,
    others: Seq<Participant>,
    shares: Seq<SecretShare>,
) -> bool {
    &&& shares.len() == others.len()
    &&& forall|k: int|
        #![trigger shares[k]]
        0 <= k < shares.len() ==> shares[k].index == others[k].index
            && shares[k].polynomial_evaluation.value() == poly_eval(
            coefficients,
            others[k].index as int,
        )
}

/// The position of the first participant whose proof is refused, where all
/// before it are accepted.
pub open spec fn first_refused_proof(others: Seq<Participant>, k: int) -> bool {
    &&& 0 <= k < others.len()
    &&& !nizk_accepts(
        others[k].proof_of_secret_key,
        others[k].index,
        others[k].commitments@[0].encoding(),
    )
    &&& all_proofs_accepted(others.subrange(0, k))
}

impl DistributedKeyGeneration<RoundOne> {
    /// This participant's index.
    pub closed spec fn my_index(&self) -> u32 {
        self.state.index
    }

    /// The protocol's parameters.
    pub closed spec fn parameters(&self) -> FrostInfo {
        self.state.parameters
    }

    /// This participant's coefficients.
    pub closed spec fn coefficients(&self) -> Seq<Scalar> {
        self.state.coefficients@
    }

    /// The other participants, in the order given.
    pub closed spec fn others(&self) -> Seq<Participant> {
        self.state.participants@
    }

    /// The shares to send to the other participants.
    pub closed spec fn shares(&self) -> Seq<SecretShare> {
        self.state.their_secret_shares@
    }

    /// Enters the first round for participant `my_index`: checks that the
    /// inputs fit the parameters, checks every other participant's proof of
    /// knowledge (failing on the first refused one), and computes a share of
    /// this participant's polynomial for each other participant.
    pub fn new(
        parameters: &FrostInfo,
        my_index: u32,
        my_coefficients: &Coefficients,
        other_participants: Vec<Participant>,
    ) -> (r: Result<DistributedKeyGeneration<RoundOne>, KeygenError>)
        ensures
            !round_one_consistent(*parameters, my_index, my_coefficients@, other_participants@)
                ==> r == Err::<DistributedKeyGeneration<RoundOne>, KeygenError>(
                KeygenError::ParameterMismatch,
            ),
            r is Ok <==> round_one_consistent(
                *parameters,
                my_index,
                my_coefficients@,
                other_participants@,
            ) && all_proofs_accepted(other_participants@),
            r is Err && r != Err::<DistributedKeyGeneration<RoundOne>, KeygenError>(
                KeygenError::ParameterMismatch,
            ) ==> exists|k: int|
                first_refused_proof(other_participants@, k) && r == Err::<
                    DistributedKeyGeneration<RoundOne>,
                    KeygenError,
                >(KeygenError::ProofInvalid(#[trigger] other_participants@[k].index)),
            r is Ok ==> {
                let s = r.unwrap();
                &&& s.my_index() == my_index
                &&& s.parameters() == *parameters
                &&& s.coefficients() == my_coefficients@
                &&& s.others() == other_participants@
                &&& shares_for(my_coefficients@, other_participants@, s.shares())
            },
    {
        let t = parameters.thresholdvalue;
        let n = parameters.totalvalue;
        if t < 1 || t > n || my_coefficients.0.len() != t as usize || other_participants.len()
            != (n - 1) as usize || my_index == 0 {
            return Err(KeygenError::ParameterMismatch);
        }
        let mut indices: Vec<u32> = Vec::new();
        let mut k: usize = 0;
        while k < other_participants.len()
            invariant
                0 <= k <= other_participants@.len(),
                t == parameters.thresholdvalue,
                indices@ == indices_of(other_participants@).subrange(0, k as int),
                forall|j: int|
                    0 <= j < k ==> participant_fits(#[trigger] other_participants@[j], my_index, t),
            decreases other_participants@.len() - k,
        {
            let p = &other_participants[k];
            if p.index == 0 || p.index == my_index || p.commitments.len() != t as usize {
                let ghost q = other_participants@[k as int];
                assert(q.index == 0 || q.index == my_index || q.commitments@.len() != t);
                assert(!round_one_consistent(
                    *parameters,
                    my_index,
                    my_coefficients@,
                    other_participants@,
                )) by {
                    if round_one_consistent(
                        *parameters,
                        my_index,
                        my_coefficients@,
                        other_participants@,
                    ) {
                        assert(participant_fits(q, my_index, t));
                    }
                }
                return Err(KeygenError::ParameterMismatch);
            }
            indices.push(p.index);
            k = k + 1;
            assert(indices@ =~= indices_of(other_participants@).subrange(0, k as int));
        }
        assert(indices@ =~= indices_of(other_participants@));
        if !has_no_duplicates(&indices) {
            return Err(KeygenError::ParameterMismatch);
        }
        let mut k: usize = 0;
        while k < other_participants.len()
            invariant
                0 <= k <= other_participants@.len(),
                round_one_consistent(*parameters, my_index, my_coefficients@, other_participants@),
                all_proofs_accepted(other_participants@.subrange(0, k as int)),
            decreases other_participants@.len() - k,
        {
            let p = &other_participants[k];
            let a0 = &p.commitments[0];
            if p.proof_of_secret_key.verify(p.index, a0).is_err() {
                assert(first_refused_proof(other_participants@, k as int));
                assert(!all_proofs_accepted(other_participants@));
                return Err(KeygenError::ProofInvalid(p.index));
            }
            proof {
                let s = other_participants@.subrange(0, k + 1);
                assert forall|j: int| 0 <= j < s.len() implies nizk_accepts(
                    #[trigger] s[j].proof_of_secret_key,
                    s[j].index,
                    s[j].commitments@[0].encoding(),
                ) by {
                    if j < k {
                        assert(s[j] == other_participants@.subrange(0, k as int)[j]);
                    }
                }
            }
            k = k + 1;
        }
        assert(other_participants@.subrange(0, k as int) =~= other_participants@);
        let mut shares: Vec<SecretShare> = Vec::new();
        let mut k: usize = 0;
        while k < other_participants.len()
            invariant
                0 <= k <= other_participants@.len(),
                shares@.len() == k,
                forall|j: int|
                    #![trigger shares@[j]]
                    0 <= j < k ==> shares@[j].index == other_participants@[j].index
                        && shares@[j].polynomial_evaluation.value() == poly_eval(
                        my_coefficients@,
                        other_participants@[j].index as int,
                    ),
            decreases other_participants@.len() - k,
        {
            let x = other_participants[k].index;
            let e = evaluate_polynomial(&my_coefficients.0, x);
            shares.push(SecretShare { index: x, polynomial_evaluation: e });
            k = k + 1;
        }
        let state = RoundOne {
            parameters: *parameters,
            index: my_index,
            coefficients: copy_scalars(&my_coefficients.0),
            participants: other_participants,
            their_secret_shares: shares,
        };
        proof {
            assert(shares_for(my_coefficients@, state.participants@, state.their_secret_shares@));
        }
        Ok(DistributedKeyGeneration { state })
    }

    /// The shares to send, one to each other participant, in the order in
    /// which the participants were given.
    pub fn their_secret_shares(&self) -> (r: Result<&Vec<SecretShare>, ()>)
        ensures
            r is Ok,
            r.unwrap()@ == self.shares(),
    {
        Ok(&self.state.their_secret_shares)
    }
}

impl DistributedKeyGeneration<RoundTwo> {
    /// This participant's index.
    pub closed spec fn my_index(&self) -> u32 {
        self.state.index
    }

    /// The protocol's parameters.
    pub closed spec fn parameters(&self) -> FrostInfo {
        self.state.parameters
    }

    /// This participant's polynomial at its own index.
    pub closed spec fn own_share(&self) -> Scalar {
        self.state.own_share
    }

    /// The other participants, in the order given.
    pub closed spec fn others(&self) -> Seq<Participant> {
        self.state.participants@
    }

    /// The checked shares received from the other participants.
    pub closed spec fn received(&self) -> Seq<SecretShare> {
        self.state.my_secret_shares@
    }
}

/// Each of the shares is addressed to `my_index`, one for each of `n`
/// senders.
pub open spec fn shares_addressed(shares: Seq<SecretShare>, my_index: u32, n: int) -> bool {
    &&& shares.len() == n
    &&& forall|k: int| 0 <= k < shares.len() ==> (#[trigger] shares[k]).index == my_index
}

/// The share matches its sender's commitments: `G^{share}` is the
/// commitment to the sender's polynomial at `my_index`.
pub open spec fn share_valid(share: SecretShare, sender: Participant, my_index: u32) -> bool {
    base_times(share.polynomial_evaluation.value()) == feldman_eval(
        sender.commitments@,
        my_index as int,
    )
}

/// Every share matches the commitments of the participant at its position.
pub open spec fn all_shares_valid(
    shares: Seq<SecretShare>,
    others: Seq<Participant>,
    my_index: u32,
) -> bool {
    forall|k: int| 0 <= k < shares.len() ==> share_valid(#[trigger] shares[k], others[k], my_index)
}

/// The position of the first share that does not match its sender's
/// commitments.
pub open spec fn first_invalid_share(
    shares: Seq<SecretShare>,
    others: Seq<Participant>,
    my_index: u32,
    k: int,
) -> bool {
    &&& 0 <= k < shares.len()
    &&& !share_valid(shares[k], others[k], my_index)
    &&& all_shares_valid(shares.subrange(0, k), others, my_index)
}

impl DistributedKeyGeneration<RoundOne> {
    /// Moves to the second round with the shares received from the other
    /// participants, in the order in which they were given to `new`: each
    /// must be addressed to this participant and match its sender's
    /// commitments. The first share that does not match fails the round. On
    /// success only this participant's own share of its polynomial is kept,
    /// and the copy of the coefficients is wiped.
    pub fn to_round_two(self, my_secret_shares: Vec<SecretShare>) -> (r: Result<
        DistributedKeyGeneration<RoundTwo>,
        KeygenError,
    >)
        ensures
            !shares_addressed(my_secret_shares@, self.my_index(), self.others().len() as int)
                ==> r == Err::<DistributedKeyGeneration<RoundTwo>, KeygenError>(
                KeygenError::ParameterMismatch,
            ),
            r is Ok <==> shares_addressed(
                my_secret_shares@,
                self.my_index(),
                self.others().len() as int,
            ) && all_shares_valid(my_secret_shares@, self.others(), self.my_index()),
            r is Err && r != Err::<DistributedKeyGeneration<RoundTwo>, KeygenError>(
                KeygenError::ParameterMismatch,
            ) ==> exists|k: int|
                first_invalid_share(my_secret_shares@, self.others(), self.my_index(), k) && r
                    == Err::<DistributedKeyGeneration<RoundTwo>, KeygenError>(
                    KeygenError::ShareVerificationFailed(#[trigger] self.others()[k].index),
                ),
            r is Ok ==> {
                let s = r.unwrap();
                &&& s.my_index() == self.my_index()
                &&& s.parameters() == self.parameters()
                &&& s.own_share().value() == poly_eval(self.coefficients(), self.my_index() as int)
                &&& s.others() == self.others()
                &&& s.received() == my_secret_shares@
            },
    {
        proof { use_type_invariant(&self.state); }
        let my_index = self.state.index;
        let others = &self.state.participants;
        if my_secret_shares.len() != others.len() {
            return Err(KeygenError::ParameterMismatch);
        }
        let mut k: usize = 0;
        while k < my_secret_shares.len()
            invariant
                0 <= k <= my_secret_shares@.len(),
                my_index == self.state.index,
                my_secret_shares@.len() == self.state.participants@.len(),
                forall|j: int| 0 <= j < k ==> (#[trigger] my_secret_shares@[j]).index == my_index,
            decreases my_secret_shares@.len() - k,
        {
            if my_secret_shares[k].index != my_index {
                assert(!shares_addressed(my_secret_shares@, my_index, others@.len() as int));
                return Err(KeygenError::ParameterMismatch);
            }
            k = k + 1;
        }
        let mut k: usize = 0;
        while k < my_secret_shares.len()
            invariant
                0 <= k <= my_secret_shares@.len(),
                my_index == self.state.index,
                others@ == self.state.participants@,
                shares_addressed(my_secret_shares@, my_index, others@.len() as int),
                my_secret_shares@.len() == others@.len(),
                all_shares_valid(my_secret_shares@.subrange(0, k as int), others@, my_index),
            decreases my_secret_shares@.len() - k,
        {
            let share = &my_secret_shares[k];
            let sender = &others[k];
            let expected = evaluate_commitments(&sender.commitments, my_index);
            let actual = Point::base_mul(&share.polynomial_evaluation);
            if !actual.equals(&expected) {
                assert(first_invalid_share(my_secret_shares@, others@, my_index, k as int));
                assert(!all_shares_valid(my_secret_shares@, others@, my_index));
                return Err(KeygenError::ShareVerificationFailed(sender.index));
            }
            proof {
                let s = my_secret_shares@.subrange(0, k + 1);
                assert forall|j: int| 0 <= j < s.len() implies share_valid(
                    #[trigger] s[j],
                    others@[j],
                    my_index,
                ) by {
                    if j < k {
                        assert(s[j] == my_secret_shares@.subrange(0, k as int)[j]);
                    }
                }
            }
            k = k + 1;
        }
        assert(my_secret_shares@.subrange(0, k as int) =~= my_secret_shares@);
        let own_share = evaluate_polynomial(&self.state.coefficients, my_index);
        let DistributedKeyGeneration { state } = self;
        let RoundOne { parameters, index, coefficients, participants, their_secret_shares: _ } =
            state;
        let mut coefficients = Coefficients(coefficients);
        coefficients.zeroize();
        Ok(
            DistributedKeyGeneration {
                state: RoundTwo { parameters, index, own_share, participants, my_secret_shares },
            },
        )
    }
}

/// The group's public key: the sum of every participant's commitment to
/// its constant term.
#[derive(Clone, Copy, Debug)]
pub struct GroupKey(pub Point);

/// A participant's long-term secret signing share.
#[derive(Clone, Copy, Debug)]
pub struct SecretKey {
    /// The participant's index.
    pub index: u32,
    /// The secret share of the group's key.
    pub key: Scalar,
}

/// A participant's public verification share, `G^key`.
#[derive(Clone, Copy, Debug)]
pub struct IndividualPublicKey {
    /// The participant's index.
    pub index: u32,
    /// `G^key` for the participant's secret key.
    pub share: Point,
}

impl SecretKey {
    /// The public key that belongs to this secret key.
    pub fn to_public(&self) -> (r: IndividualPublicKey)
        ensures
            r.index == self.index,
            r.share.encoding() == base_times(self.key.value()),
    {
        IndividualPublicKey { index: self.index, share: Point::base_mul(&self.key) }
    }

    /// Overwrites the secret with zero.
    pub fn zeroize(&mut self)
        ensures
            final(self).index == old(self).index,
            final(self).key.value() == 0,
    {
        self.key.wipe();
    }
}

/// `start` plus the evaluations of the shares, added in order modulo the
/// group order.
pub open spec fn sum_shares(start: int, s: Seq<SecretShare>) -> int
    decreases s.len(),
{
    if s.len() == 0 {
        start
    } else {
        (sum_shares(start, s.drop_last()) + s.last().polynomial_evaluation.value()) % group_order()
    }
}

/// The first position of a participant with index `i` in `others`.
pub open spec fn position_of(others: Seq<Participant>, i: u32) -> int {
    choose|k: int| 0 <= k < others.len() && others[k].index == i
}

/// Each participant's commitment to its constant term, by index: those of
/// `others` and `mine` for `my_index`.
pub open spec fn constant_terms_by_index(others: Seq<Participant>, my_index: u32, mine: Seq<u8>) -> Map<
    u32,
    Seq<u8>,
> {
    Map::new(
        |i: u32| i == my_index || indices_of(others).contains(i),
        |i: u32|
            if i == my_index {
                mine
            } else {
                others[position_of(others, i)].commitments@[0].encoding()
            },
    )
}

/// The sum in the group of the values of `m` whose keys are below `hi`,
/// added in ascending order of their keys.
pub open spec fn sum_below(m: Map<u32, Seq<u8>>, hi: nat) -> Seq<u8>
    decreases hi,
{
    if hi == 0 {
        identity_encoding()
    } else if hi <= 0x1_0000_0000 && m.contains_key((hi - 1) as u32) {
        point_sum(sum_below(m, (hi - 1) as nat), m[(hi - 1) as u32])
    } else {
        sum_below(m, (hi - 1) as nat)
    }
}

/// The sum in the group of the values of `m`, in ascending order of keys.
pub open spec fn ordered_sum(m: Map<u32, Seq<u8>>) -> Seq<u8> {
    sum_below(m, 0x1_0000_0000)
}

/// Keys that are absent add nothing to the sum.
proof fn lemma_sum_below_gap(m: Map<u32, Seq<u8>>, a: nat, b: nat)
    requires
        a <= b <= 0x1_0000_0000,
        forall|x: u32| a <= x < b ==> !m.contains_key(x),
    ensures
        sum_below(m, b) == sum_below(m, a),
    decreases b - a,
{
    if a < b {
        assert(!m.contains_key((b - 1) as u32));
        lemma_sum_below_gap(m, a, (b - 1) as nat);
    }
}

impl DistributedKeyGeneration<RoundTwo> {
    /// The group key that `finish` computes: the constant terms of all the
    /// participants, this one's given as `my_commitment`, added in ascending
    /// order of index.
    pub open spec fn group_key_for(&self, my_commitment: Point) -> Seq<u8> {
        ordered_sum(self.constant_terms(my_commitment))
    }

    /// Every participant's commitment to its constant term, by index.
    pub open spec fn constant_terms(&self, my_commitment: Point) -> Map<u32, Seq<u8>> {
        constant_terms_by_index(self.others(), self.my_index(), my_commitment.encoding())
    }

    /// Ends key generation. The secret key is this participant's polynomial
    /// at its own index plus every received share; the group key is the sum
    /// of the constant-term commitments of all participants, this one's
    /// being `my_commitment`.
    pub fn finish(self, my_commitment: &Point) -> (r: Result<(GroupKey, SecretKey), KeygenError>)
        ensures
            r is Ok,
            r.unwrap().0.0.encoding() == self.group_key_for(*my_commitment),
            r.unwrap().1.index == self.my_index(),
            r.unwrap().1.key.value() == sum_shares(self.own_share().value(), self.received()),
    {
        proof { use_type_invariant(&self.state); }
        let my_index = self.state.index;
        let shares = &self.state.my_secret_shares;
        let mut key = self.state.own_share;
        let mut k: usize = 0;
        while k < shares.len()
            invariant
                0 <= k <= shares@.len(),
                key.value() == sum_shares(self.state.own_share.value(), shares@.subrange(0, k as int)),
            decreases shares@.len() - k,
        {
            assert(shares@.subrange(0, k + 1).drop_last() =~= shares@.subrange(0, k as int));
            key = key.add(&shares[k].polynomial_evaluation);
            k = k + 1;
        }
        assert(shares@.subrange(0, k as int) =~= shares@);
        let group_key = self.sum_constant_terms(my_commitment);
        Ok((GroupKey(group_key), SecretKey { index: my_index, key }))
    }

    /// The constant-term commitment of the participant with index `u`.
    fn constant_term_of(&self, my_commitment: &Point, u: u32) -> (r: Point)
        requires
            self.constant_terms(*my_commitment).contains_key(u),
        ensures
            r.encoding() == self.constant_terms(*my_commitment)[u],
    {
        proof { use_type_invariant(&self.state); }
        if u == self.state.index {
            return *my_commitment;
        }
        let others = &self.state.participants;
        let ghost idx = indices_of(others@);
        proof {
            let j = choose|j: int| 0 <= j < idx.len() && idx[j] == u;
            assert(others@[j].index == u);
        }
        let mut k: usize = 0;
        while k < others.len()
            invariant
                0 <= k <= others@.len(),
                idx == indices_of(others@),
                idx.contains(u),
                others@ == self.state.participants@,
                participants_consistent(self.state.parameters, self.state.index, others@),
                forall|j: int| 0 <= j < k ==> (#[trigger] others@[j]).index != u,
            decreases others@.len() - k,
        {
            if others[k].index == u {
                proof {
                    let p = position_of(others@, u);
                    assert(idx[k as int] == u);
                    assert(idx[p] == u);
                    assert(all_distinct(idx));
                    assert(p == k);
                    assert(participant_fits(
                        others@[k as int],
                        self.state.index,
                        self.state.parameters.thresholdvalue,
                    ));
                }
                return others[k].commitments[0];
            }
            k = k + 1;
        }
        proof {
            let j = choose|j: int| 0 <= j < idx.len() && idx[j] == u;
            assert(others@[j].index == u);
        }
        *my_commitment
    }

    /// The constant-term commitments of all participants, added in ascending
    /// order of index.
    fn sum_constant_terms(&self, my_commitment: &Point) -> (r: Point)
        ensures
            r.encoding() == self.group_key_for(*my_commitment),
    {
        let ghost m = self.constant_terms(*my_commitment);
        let others = &self.state.participants;
        let mut indices: Vec<u32> = Vec::new();
        let mut k: usize = 0;
        while k < others.len()
            invariant
                0 <= k <= others@.len(),
                indices@ == indices_of(others@).subrange(0, k as int),
            decreases others@.len() - k,
        {
            indices.push(others[k].index);
            k = k + 1;
            assert(indices@ =~= indices_of(others@).subrange(0, k as int));
        }
        assert(indices@ =~= indices_of(others@));
        indices.push(self.state.index);
        proof {
            assert forall|x: u32| m.contains_key(x) <==> indices@.contains(x) by {
                if indices@.contains(x) && x != self.state.index {
                    let j = choose|j: int| 0 <= j < indices@.len() && indices@[j] == x;
                    assert(indices_of(others@)[j] == x);
                }
                if indices_of(others@).contains(x) {
                    let oi = indices_of(others@);
                    let j = choose|j: int| 0 <= j < oi.len() && oi[j] == x;
                    assert(indices@[j] == x);
                }
                if x == self.state.index {
                    assert(indices@[indices@.len() - 1] == x);
                }
            }
        }
        let sorted = sorted_unique(&indices);
        let mut acc = Point::identity();
        let mut j: usize = 0;
        while j < sorted.len()
            invariant
                0 <= j <= sorted@.len(),
                strictly_ascending(sorted@),
                m == self.constant_terms(*my_commitment),
                forall|x: u32| m.contains_key(x) <==> sorted@.contains(x),
                acc.encoding() == sum_below(m, if j == 0 { 0 } else { (sorted@[j - 1] + 1) as nat }),
            decreases sorted@.len() - j,
        {
            let u = sorted[j];
            let ghost lo: nat = if j == 0 { 0 } else { (sorted@[j - 1] + 1) as nat };
            proof {
                assert forall|x: u32| lo <= x < u implies !m.contains_key(x) by {
                    if m.contains_key(x) {
                        let l = choose|l: int| 0 <= l < sorted@.len() && sorted@[l] == x;
                        if l < j {
                            if l < j - 1 {
                                assert(sorted@[l] < sorted@[j - 1]);
                            }
                        } else if l > j {
                            assert(sorted@[j as int] < sorted@[l]);
                        }
                    }
                }
                if j > 0 {
                    assert(sorted@[j - 1] < sorted@[j as int]);
                }
                lemma_sum_below_gap(m, lo, u as nat);
                assert(sorted@.contains(u));
            }
            let c = self.constant_term_of(my_commitment, u);
            acc = acc.add(&c);
            j = j + 1;
        }
        proof {
            let lo: nat = if j == 0 { 0 } else { (sorted@[j - 1] + 1) as nat };
            assert forall|x: u32| lo <= x < 0x1_0000_0000 implies !m.contains_key(x) by {
                if m.contains_key(x) {
                    let l = choose|l: int| 0 <= l < sorted@.len() && sorted@[l] == x;
                    if l < j - 1 {
                        assert(sorted@[l] < sorted@[j - 1]);
                    }
                }
            }
            lemma_sum_below_gap(m, lo, 0x1_0000_0000);
        }
        acc
    }
}

/// Where `others` is `all` without position `i`, the participant at position
/// `l` of `all` (other than `i`) is found in `others` at its index, and the
/// indices of `others` with `all[i]`'s are those of `all`.
proof fn lemma_others_of(all: Seq<Participant>, i: int, x: u32)
    requires
        0 <= i < all.len(),
        all_distinct(indices_of(all)),
    ensures
        (x == all[i].index || indices_of(all.remove(i)).contains(x)) <==> indices_of(all).contains(
            x,
        ),
        x != all[i].index && indices_of(all.remove(i)).contains(x) ==> exists|l: int|
            0 <= l < all.len() && l != i && all[l].index == x
                && #[trigger] all.remove(i)[position_of(all.remove(i), x)] == all[l],
{
    let others = all.remove(i);
    let oi = indices_of(others);
    let ai = indices_of(all);
    if x == all[i].index {
        assert(ai[i] == x);
    }
    if oi.contains(x) {
        let k = choose|k: int| 0 <= k < oi.len() && oi[k] == x;
        if k < i {
            assert(ai[k] == x);
        } else {
            assert(ai[k + 1] == x);
        }
        let p = position_of(others, x);
        assert(others[k].index == x);
        assert(0 <= p < others.len() && others[p].index == x);
        let l = if p < i { p } else { p + 1 };
        assert(others[p] == all[l]);
        if l == i {
            assert(x == all[i].index);
        }
    }
    if ai.contains(x) && x != all[i].index {
        let l = choose|l: int| 0 <= l < ai.len() && ai[l] == x;
        if l < i {
            assert(oi[l] == x);
        } else if l > i {
            assert(oi[l - 1] == x);
        }
    }
}

/// Every honest participant of one key generation gets the same group key:
/// where each of two participants, at positions `i` and `j` of the full
/// list `all` (indices distinct), was given everyone else in the order of
/// `all` and finishes with its own constant-term commitment, `finish` gives
/// both the same group key.
pub proof fn lemma_honest_participants_agree(
    all: Seq<Participant>,
    i: int,
    a: DistributedKeyGeneration<RoundTwo>,
    a_commitment: Point,
    j: int,
    b: DistributedKeyGeneration<RoundTwo>,
    b_commitment: Point,
)
    requires
        all_distinct(indices_of(all)),
        0 <= i < all.len(),
        0 <= j < all.len(),
        a.others() == all.remove(i),
        a.my_index() == all[i].index,
        a_commitment == all[i].commitments@[0],
        b.others() == all.remove(j),
        b.my_index() == all[j].index,
        b_commitment == all[j].commitments@[0],
    ensures
        a.group_key_for(a_commitment) == b.group_key_for(b_commitment),
{
    let ma = a.constant_terms(a_commitment);
    let mb = b.constant_terms(b_commitment);
    assert forall|x: u32| ma.contains_key(x) <==> mb.contains_key(x) by {
        lemma_others_of(all, i, x);
        lemma_others_of(all, j, x);
    }
    assert forall|x: u32| ma.contains_key(x) implies ma[x] == mb[x] by {
        lemma_others_of(all, i, x);
        lemma_others_of(all, j, x);
        let ai = indices_of(all);
        if x != all[i].index {
            let la = choose|l: int|
                0 <= l < all.len() && l != i && all[l].index == x
                    && #[trigger] all.remove(i)[position_of(all.remove(i), x)] == all[l];
            if x != all[j].index {
                let lb = choose|l: int|
                    0 <= l < all.len() && l != j && all[l].index == x
                        && #[trigger] all.remove(j)[position_of(all.remove(j), x)] == all[l];
                assert(ai[la] == ai[lb]);
            } else {
                assert(ai[la] == ai[j]);
            }
        } else if x != all[j].index {
            let lb = choose|l: int|
                0 <= l < all.len() && l != j && all[l].index == x
                    && #[trigger] all.remove(j)[position_of(all.remove(j), x)] == all[l];
            assert(ai[lb] == ai[i]);
        } else {
            assert(ai[i] == ai[j]);
        }
    }
    assert(ma =~= mb);
}

} // verus!
