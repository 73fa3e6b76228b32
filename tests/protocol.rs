use frost_k256::aggregator::{AggregatorIssue, SignatureAggregator};
use frost_k256::compute_message_hash;
use frost_k256::keygen::{
    create_participant, evaluate_commitments, evaluate_polynomial, DistributedKeyGeneration,
    FrostInfo, GroupKey, KeygenError, Participant, RoundOne, SecretKey, SecretShare,
};
use frost_k256::nizk::NizkOfSecretKey;
use frost_k256::point::Point;
use frost_k256::precomputation::generate_commitment_share_lists;
use frost_k256::scalar::Scalar;
use frost_k256::signature::{SignError, Signer, ThresholdSignature};

const CONTEXT: &[u8] = b"CONTEXT STRING STOLEN FROM DALEK TEST SUITE";
const MESSAGE: &[u8] = b"This is a test of the tsunami alert system. This is only a test.";

/// Runs key generation among participants `1..=n`, each given the others in
/// ascending order; returns the participants, the group keys and the secret
/// keys.
fn keygen(t: u8, n: u8) -> (Vec<Participant>, Vec<GroupKey>, Vec<SecretKey>) {
    let params = FrostInfo { thresholdvalue: t, totalvalue: n };
    let mut parts = Vec::new();
    let mut coeffs = Vec::new();
    for i in 1..=n as u32 {
        let (p, c) = Participant::new(&params, i).unwrap();
        parts.push(p);
        coeffs.push(c);
    }
    let mut states = Vec::new();
    for i in 0..n as usize {
        let others: Vec<Participant> =
            parts.iter().enumerate().filter(|(j, _)| *j != i).map(|(_, p)| p.clone()).collect();
        states.push(
            DistributedKeyGeneration::<RoundOne>::new(&params, parts[i].index, &coeffs[i], others)
                .unwrap(),
        );
    }
    let mut finished_groups = Vec::new();
    let mut finished_keys = Vec::new();
    let mut all_mine = Vec::new();
    for i in 0..n as usize {
        let mut mine = Vec::new();
        for j in 0..n as usize {
            if j != i {
                let pos = if i < j { i } else { i - 1 };
                mine.push(states[j].their_secret_shares().unwrap()[pos]);
            }
        }
        all_mine.push(mine);
    }
    for (i, state) in states.into_iter().enumerate() {
        let round_two = state.to_round_two(all_mine[i].clone()).unwrap();
        let (gk, sk) = round_two.finish(&parts[i].public_key().unwrap()).unwrap();
        finished_groups.push(gk);
        finished_keys.push(sk);
    }
    (parts, finished_groups, finished_keys)
}

/// Signs `MESSAGE` with the secret keys of the chosen participants (by
/// position) and returns the aggregator's result.
fn sign_with(
    t: u8,
    n: u8,
    group_key: GroupKey,
    keys: &[SecretKey],
) -> Result<ThresholdSignature, std::collections::HashMap<u32, AggregatorIssue>> {
    let params = FrostInfo { thresholdvalue: t, totalvalue: n };
    let mut aggregator =
        SignatureAggregator::new(params, group_key, CONTEXT.to_vec(), MESSAGE.to_vec());
    let mut secrets = Vec::new();
    for sk in keys {
        let (public, secret) = generate_commitment_share_lists(sk.index, 1);
        aggregator.include_signer(sk.index, public.commitments[0], sk.to_public());
        secrets.push(secret);
    }
    let signers = aggregator.get_signers().clone();
    let message_hash = compute_message_hash(CONTEXT, MESSAGE);
    for (sk, secret) in keys.iter().zip(secrets.iter_mut()) {
        let partial = sk.sign(&message_hash, &group_key, secret, 0, &signers).unwrap();
        aggregator.include_partial_signature(partial);
    }
    aggregator.finalize().unwrap().aggregate()
}

#[test]
fn dkg_gives_every_participant_the_same_group_key() {
    let (_parts, group_keys, _keys) = keygen(3, 4);
    for gk in group_keys.iter() {
        assert_eq!(gk.0.to_bytes(), group_keys[0].0.to_bytes());
    }
}

#[test]
fn group_key_is_sum_of_constant_terms() {
    let (parts, group_keys, _keys) = keygen(2, 3);
    let mut sum = Point::identity();
    for p in parts.iter() {
        sum = sum.add(&p.commitments[0]);
    }
    assert!(group_keys[0].0 == sum);
}

#[test]
fn individual_public_key_is_g_to_the_secret_key() {
    let (_parts, _gks, keys) = keygen(2, 3);
    for sk in keys.iter() {
        let pk = sk.to_public();
        assert_eq!(pk.index, sk.index);
        assert!(pk.share == Point::base_mul(&sk.key));
    }
}

#[test]
fn individual_public_key_is_reconstructible_from_commitments() {
    let (parts, _gks, keys) = keygen(2, 3);
    for sk in keys.iter() {
        let mut expected = Point::identity();
        for p in parts.iter() {
            expected = expected.add(&evaluate_commitments(&p.commitments, sk.index));
        }
        assert!(sk.to_public().share == expected);
    }
}

#[test]
fn nizk_round_trip_and_perturbations() {
    let a = Scalar::random();
    let big_a = Point::base_mul(&a);
    let proof = NizkOfSecretKey::prove(7, &a, &big_a).unwrap();
    assert!(proof.verify(7, &big_a).is_ok());
    assert!(proof.verify(8, &big_a).is_err());
    assert!(proof.verify(7, &big_a.add(&Point::generator())).is_err());
    let bad_r = NizkOfSecretKey { s: proof.s, r: proof.r.add(&Scalar::one()) };
    assert!(bad_r.verify(7, &big_a).is_err());
    let bad_s = NizkOfSecretKey { s: proof.s.add(&Scalar::one()), r: proof.r };
    assert!(bad_s.verify(7, &big_a).is_err());
}

#[test]
fn nizk_with_fixed_nonce_is_deterministic() {
    let a = Scalar::from_u32(11);
    let k = Scalar::from_u32(13);
    let big_a = Point::base_mul(&a);
    let p1 = NizkOfSecretKey::prove_with_nonce(1, &a, &big_a, &k).unwrap();
    let p2 = NizkOfSecretKey::prove_with_nonce(1, &a, &big_a, &k).unwrap();
    assert_eq!(p1.s.to_bytes(), p2.s.to_bytes());
    assert_eq!(p1.r.to_bytes(), k.add(&a.mul(&p1.s)).to_bytes());
    assert!(p1.verify(1, &big_a).is_ok());
}

#[test]
fn every_qualified_subset_signs() {
    let (_parts, gks, keys) = keygen(2, 3);
    let message_hash = compute_message_hash(CONTEXT, MESSAGE);
    for pair in [[0usize, 1], [0, 2], [1, 2]] {
        let chosen = [keys[pair[0]], keys[pair[1]]];
        let sig = sign_with(2, 3, gks[0], &chosen).unwrap();
        assert!(sig.verify(&gks[0], &message_hash).is_ok());
    }
}

#[test]
fn three_of_five_signs_and_verifies() {
    let (_parts, gks, keys) = keygen(3, 5);
    let message_hash = compute_message_hash(CONTEXT, MESSAGE);
    let chosen = [keys[4], keys[1], keys[2]];
    let sig = sign_with(3, 5, gks[0], &chosen).unwrap();
    assert!(sig.verify(&gks[0], &message_hash).is_ok());
    let other_hash = compute_message_hash(CONTEXT, b"another message");
    assert!(sig.verify(&gks[0], &other_hash).is_err());
}

#[test]
fn too_few_signers_give_an_invalid_signature() {
    let (_parts, gks, keys) = keygen(2, 3);
    let message_hash = compute_message_hash(CONTEXT, MESSAGE);
    let sig = sign_with(2, 3, gks[0], &[keys[0]]).unwrap();
    assert!(sig.verify(&gks[0], &message_hash).is_err());
}

#[test]
fn include_signer_twice_lists_it_once() {
    let params = FrostInfo { thresholdvalue: 1, totalvalue: 1 };
    let mut aggregator = SignatureAggregator::new(
        params,
        GroupKey(Point::identity()),
        CONTEXT.to_vec(),
        MESSAGE.to_vec(),
    );
    let sk = SecretKey { index: 5, key: Scalar::random() };
    let (first, _) = generate_commitment_share_lists(5, 1);
    let (second, _) = generate_commitment_share_lists(5, 1);
    aggregator.include_signer(5, first.commitments[0], sk.to_public());
    aggregator.include_signer(5, second.commitments[0], sk.to_public());
    let signers = aggregator.get_signers();
    assert_eq!(signers.len(), 1);
    assert_eq!(signers[0].participant_index, 5);
    assert!(signers[0].published_commitment_share == first.commitments[0]);
}

/// Runs a 2-of-3 ceremony with signers 1, 2 and 3 in which the partial
/// signatures of the listed positions are replaced by wrong ones.
fn aggregate_with_corrupted(corrupt: &[usize]) -> Result<ThresholdSignature, std::collections::HashMap<u32, AggregatorIssue>> {
    let (_parts, gks, keys) = keygen(2, 3);
    let params = FrostInfo { thresholdvalue: 2, totalvalue: 3 };
    let mut aggregator = SignatureAggregator::new(params, gks[0], CONTEXT.to_vec(), MESSAGE.to_vec());
    let mut secrets = Vec::new();
    for sk in keys.iter() {
        let (public, secret) = generate_commitment_share_lists(sk.index, 1);
        aggregator.include_signer(sk.index, public.commitments[0], sk.to_public());
        secrets.push(secret);
    }
    let signers: Vec<Signer> = aggregator.get_signers().clone();
    let message_hash = compute_message_hash(CONTEXT, MESSAGE);
    for (pos, (sk, secret)) in keys.iter().zip(secrets.iter_mut()).enumerate() {
        let mut partial = sk.sign(&message_hash, &gks[0], secret, 0, &signers).unwrap();
        if corrupt.contains(&pos) {
            partial.z = partial.z.add(&Scalar::one());
        }
        aggregator.include_partial_signature(partial);
    }
    aggregator.finalize().unwrap().aggregate()
}

#[test]
fn one_corrupted_partial_signature_is_flagged() {
    let errors = aggregate_with_corrupted(&[1]).unwrap_err();
    assert_eq!(errors.len(), 1);
    assert_eq!(errors[&2], AggregatorIssue::IncorrectPartialSignature);
    assert_eq!(errors[&2].message(), "Incorrect partial signature");
}

#[test]
fn every_corrupted_partial_signature_is_flagged_in_one_pass() {
    let errors = aggregate_with_corrupted(&[0, 2]).unwrap_err();
    assert_eq!(errors.len(), 2);
    assert_eq!(errors[&1], AggregatorIssue::IncorrectPartialSignature);
    assert_eq!(errors[&3], AggregatorIssue::IncorrectPartialSignature);
    assert!(aggregate_with_corrupted(&[]).is_ok());
}

#[test]
fn used_commitment_share_cannot_be_reused() {
    let (_parts, gks, keys) = keygen(1, 1);
    let sk = keys[0];
    let (public, mut secret) = generate_commitment_share_lists(sk.index, 1);
    let signers = vec![Signer { participant_index: sk.index, published_commitment_share: public.commitments[0] }];
    let message_hash = compute_message_hash(CONTEXT, MESSAGE);
    assert!(sk.sign(&message_hash, &gks[0], &mut secret, 0, &signers).is_ok());
    assert!(secret.is_consumed_at(0));
    assert_eq!(secret.commitments[0].hiding.nonce.to_bytes(), [0u8; 32]);
    assert_eq!(secret.commitments[0].binding.nonce.to_bytes(), [0u8; 32]);
    assert_eq!(
        sk.sign(&message_hash, &gks[0], &mut secret, 0, &signers).unwrap_err(),
        SignError::CommitmentShareExhausted
    );
}

#[test]
fn used_share_keeps_positions_aligned() {
    let (_parts, gks, keys) = keygen(1, 1);
    let sk = keys[0];
    let (public, mut secret) = generate_commitment_share_lists(sk.index, 2);
    let second = secret.commitments[1].clone();
    let message_hash = compute_message_hash(CONTEXT, MESSAGE);
    let signers = vec![Signer { participant_index: sk.index, published_commitment_share: public.commitments[0] }];
    assert!(sk.sign(&message_hash, &gks[0], &mut secret, 0, &signers).is_ok());
    assert_eq!(secret.commitments.len(), 2);
    assert!(secret.commitments[1].ct_eq(&second));
    assert!(!secret.is_consumed_at(1));
    assert_eq!(
        sk.sign(&message_hash, &gks[0], &mut secret, 0, &signers).unwrap_err(),
        SignError::CommitmentShareExhausted
    );
    let signers = vec![Signer { participant_index: sk.index, published_commitment_share: public.commitments[1] }];
    let partial = sk.sign(&message_hash, &gks[0], &mut secret, 1, &signers).unwrap();
    let params = FrostInfo { thresholdvalue: 1, totalvalue: 1 };
    let mut aggregator = SignatureAggregator::new(params, gks[0], CONTEXT.to_vec(), MESSAGE.to_vec());
    aggregator.include_signer(sk.index, public.commitments[1], sk.to_public());
    aggregator.include_partial_signature(partial);
    let sig = aggregator.finalize().unwrap().aggregate().unwrap();
    assert!(sig.verify(&gks[0], &message_hash).is_ok());
}

#[test]
fn sign_with_repeated_signer_index_fails() {
    let (_parts, gks, keys) = keygen(2, 3);
    let sk = keys[0];
    let (public, mut secret) = generate_commitment_share_lists(sk.index, 1);
    let (other, _) = generate_commitment_share_lists(2, 1);
    let me = Signer { participant_index: sk.index, published_commitment_share: public.commitments[0] };
    let two = Signer { participant_index: 2, published_commitment_share: other.commitments[0] };
    let signers = vec![me, me, two];
    let message_hash = compute_message_hash(CONTEXT, MESSAGE);
    assert_eq!(
        sk.sign(&message_hash, &gks[0], &mut secret, 0, &signers).unwrap_err(),
        SignError::DuplicateOrInvalidLagrangeInput
    );
    assert!(!secret.is_consumed_at(0));
    assert_eq!(secret.commitments.len(), 1);
}

#[test]
fn issue_messages() {
    assert_eq!(AggregatorIssue::MissingPublicKey.message(), "Missing public key");
    assert_eq!(AggregatorIssue::MissingPartialSignature.message(), "Missing partial signature");
    assert_eq!(AggregatorIssue::InvalidLagrangeInput.message(), "Duplicate shares provided");
}

#[test]
fn sign_without_self_among_signers_fails() {
    let (_parts, gks, keys) = keygen(1, 1);
    let sk = keys[0];
    let (public, mut secret) = generate_commitment_share_lists(9, 1);
    let signers = vec![Signer { participant_index: 9, published_commitment_share: public.commitments[0] }];
    let message_hash = compute_message_hash(CONTEXT, MESSAGE);
    assert_eq!(
        sk.sign(&message_hash, &gks[0], &mut secret, 0, &signers).unwrap_err(),
        SignError::MissingBindingFactor
    );
    assert_eq!(secret.commitments.len(), 1);
}

#[test]
fn signature_bytes_round_trip() {
    let (_parts, gks, keys) = keygen(1, 1);
    let sig = sign_with(1, 1, gks[0], &keys).unwrap();
    let bytes = sig.to_bytes();
    let back = ThresholdSignature::from_bytes(bytes).unwrap();
    assert_eq!(back.to_bytes(), bytes);
    let message_hash = compute_message_hash(CONTEXT, MESSAGE);
    assert!(back.verify(&gks[0], &message_hash).is_ok());
}

#[test]
fn signature_from_bytes_rejects_invalid_parts() {
    let (_parts, gks, keys) = keygen(1, 1);
    let sig = sign_with(1, 1, gks[0], &keys).unwrap();
    let mut bad_point = sig.to_bytes();
    bad_point[0] = 0x07;
    assert!(ThresholdSignature::from_bytes(bad_point).is_none());
    let mut bad_scalar = sig.to_bytes();
    for b in bad_scalar[33..].iter_mut() {
        *b = 0xff;
    }
    assert!(ThresholdSignature::from_bytes(bad_scalar).is_none());
}

#[test]
fn two_of_three_tsunami_scenario() {
    let (_parts, gks, keys) = keygen(2, 3);
    assert_eq!(gks[0].0.to_bytes(), gks[1].0.to_bytes());
    assert_eq!(gks[1].0.to_bytes(), gks[2].0.to_bytes());
    let sig = sign_with(2, 3, gks[0], &[keys[0], keys[1]]).unwrap();
    let message_hash = compute_message_hash(CONTEXT, MESSAGE);
    assert!(sig.verify(&gks[0], &message_hash).is_ok());
}

#[test]
fn dkg_rejects_wrong_participant_count() {
    let params = FrostInfo { thresholdvalue: 2, totalvalue: 3 };
    let (p1, c1) = Participant::new(&params, 1).unwrap();
    let (p2, _c2) = Participant::new(&params, 2).unwrap();
    let _ = p1;
    let result = DistributedKeyGeneration::<RoundOne>::new(&params, 1, &c1, vec![p2]);
    assert_eq!(result.unwrap_err(), KeygenError::ParameterMismatch);
}

#[test]
fn dkg_rejects_duplicate_indices() {
    let params = FrostInfo { thresholdvalue: 2, totalvalue: 3 };
    let (_p1, c1) = Participant::new(&params, 1).unwrap();
    let (p2, _c2) = Participant::new(&params, 2).unwrap();
    let result = DistributedKeyGeneration::<RoundOne>::new(&params, 1, &c1, vec![p2.clone(), p2]);
    assert_eq!(result.unwrap_err(), KeygenError::ParameterMismatch);
}

#[test]
fn dkg_rejects_an_invalid_proof() {
    let params = FrostInfo { thresholdvalue: 2, totalvalue: 3 };
    let (_p1, c1) = Participant::new(&params, 1).unwrap();
    let (p2, _c2) = Participant::new(&params, 2).unwrap();
    let (mut p3, _c3) = Participant::new(&params, 3).unwrap();
    p3.proof_of_secret_key.r = p3.proof_of_secret_key.r.add(&Scalar::one());
    let result = DistributedKeyGeneration::<RoundOne>::new(&params, 1, &c1, vec![p2, p3]);
    assert_eq!(result.unwrap_err(), KeygenError::ProofInvalid(3));
}

#[test]
fn dkg_rejects_a_bad_share() {
    let params = FrostInfo { thresholdvalue: 2, totalvalue: 2 };
    let (p1, c1) = Participant::new(&params, 1).unwrap();
    let (p2, c2) = Participant::new(&params, 2).unwrap();
    let s1 = DistributedKeyGeneration::<RoundOne>::new(&params, 1, &c1, vec![p2.clone()]).unwrap();
    let s2 = DistributedKeyGeneration::<RoundOne>::new(&params, 2, &c2, vec![p1.clone()]).unwrap();
    let good = s2.their_secret_shares().unwrap()[0];
    let bad = SecretShare { index: good.index, polynomial_evaluation: good.polynomial_evaluation.add(&Scalar::one()) };
    assert_eq!(s1.to_round_two(vec![bad]).unwrap_err(), KeygenError::ShareVerificationFailed(2));
    let misaddressed = SecretShare { index: 5, polynomial_evaluation: good.polynomial_evaluation };
    let s1 = DistributedKeyGeneration::<RoundOne>::new(&params, 1, &c1, vec![p2]).unwrap();
    assert_eq!(s1.to_round_two(vec![misaddressed]).unwrap_err(), KeygenError::ParameterMismatch);
}

#[test]
fn secret_shares_are_polynomial_values() {
    let coefficients = vec![Scalar::from_u32(3), Scalar::from_u32(5), Scalar::from_u32(7)];
    // 3 + 5·2 + 7·4 = 41
    assert_eq!(evaluate_polynomial(&coefficients, 2).to_bytes(), Scalar::from_u32(41).to_bytes());
    let commitments: Vec<Point> = coefficients.iter().map(|c| Point::base_mul(c)).collect();
    assert!(evaluate_commitments(&commitments, 2) == Point::base_mul(&Scalar::from_u32(41)));
}

#[test]
fn create_participant_reports_its_public_key() {
    let info = FrostInfo { thresholdvalue: 2, totalvalue: 3 };
    let (party, public_bytes, _coefficients) = create_participant(info, 2).unwrap();
    assert_eq!(party.index, 2);
    assert_eq!(party.commitments.len(), 2);
    assert_eq!(public_bytes, party.commitments[0].to_bytes());
    assert!(party.proof_of_secret_key.verify(2, &party.commitments[0]).is_ok());
}

#[test]
fn finalize_reports_missing_partial_signatures() {
    let params = FrostInfo { thresholdvalue: 2, totalvalue: 3 };
    let mut aggregator = SignatureAggregator::new(
        params,
        GroupKey(Point::identity()),
        CONTEXT.to_vec(),
        MESSAGE.to_vec(),
    );
    let sk1 = SecretKey { index: 1, key: Scalar::random() };
    let sk2 = SecretKey { index: 2, key: Scalar::random() };
    let (c1, _) = generate_commitment_share_lists(1, 1);
    let (c2, _) = generate_commitment_share_lists(2, 1);
    aggregator.include_signer(1, c1.commitments[0], sk1.to_public());
    aggregator.include_signer(2, c2.commitments[0], sk2.to_public());
    aggregator.include_partial_signature(frost_k256::signature::PartialThresholdSignature { index: 1, z: Scalar::one() });
    let remaining = aggregator.get_remaining_signers();
    assert_eq!(remaining.len(), 1);
    assert_eq!(remaining[0].participant_index, 2);
    let errors = aggregator.finalize().unwrap_err();
    assert_eq!(errors.len(), 2);
    assert_eq!(errors[&0], AggregatorIssue::MissingRemainingSigners);
    assert_eq!(errors[&0].message(), "Missing remaining signer(s)");
    assert_eq!(errors[&2], AggregatorIssue::MissingPartialSignature);
}
