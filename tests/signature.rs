use frost_k256::aggregator::SignatureAggregator;
use frost_k256::compute_message_hash;
use frost_k256::keygen::{
    DistributedKeyGeneration, FrostInfo, GroupKey, Participant, RoundOne, SecretKey,
};
use frost_k256::point::Point;
use frost_k256::precomputation::generate_commitment_share_lists;
use frost_k256::scalar::Scalar;

#[test]
fn signing_and_verification_single_party() {
    let params = FrostInfo { thresholdvalue: 1, totalvalue: 1 };

    let (p1, p1coeffs) = Participant::new(&params, 1).unwrap();

    p1.proof_of_secret_key.verify(p1.index, &p1.commitments[0]).unwrap();

    let p1_other_participants: Vec<Participant> = Vec::new();
    let p1_state =
        DistributedKeyGeneration::<RoundOne>::new(&params, p1.index, &p1coeffs, p1_other_participants)
            .unwrap();
    let p1_my_secret_shares = Vec::new();
    let p1_state = p1_state.to_round_two(p1_my_secret_shares).unwrap();
    let result = p1_state.finish(&p1.public_key().unwrap());

    assert!(result.is_ok());

    let (group_key, p1_sk) = result.unwrap();

    let context = b"CONTEXT STRING STOLEN FROM DALEK TEST SUITE";
    let message = b"This is a test of the tsunami alert system. This is only a test.";
    let (p1_public_comshares, mut p1_secret_comshares) = generate_commitment_share_lists(1, 1);

    let mut aggregator =
        SignatureAggregator::new(params, group_key, context.to_vec(), message.to_vec());

    aggregator.include_signer(1, p1_public_comshares.commitments[0], p1_sk.to_public());

    let signers = aggregator.get_signers();
    let message_hash = compute_message_hash(&context[..], &message[..]);

    let p1_partial = p1_sk
        .sign(&message_hash, &group_key, &mut p1_secret_comshares, 0, signers)
        .unwrap();

    aggregator.include_partial_signature(p1_partial);

    let aggregator = aggregator.finalize().unwrap();
    let signing_result = aggregator.aggregate();

    assert!(signing_result.is_ok());

    let threshold_signature = signing_result.unwrap();
    let verification_result = threshold_signature.verify(&group_key, &message_hash);

    println!("{:?}", verification_result);

    assert!(verification_result.is_ok());
}

#[test]
fn signing_and_verification_1_out_of_1() {
    let params = FrostInfo { thresholdvalue: 1, totalvalue: 1 };

    let (p1, p1coeffs) = Participant::new(&params, 1).unwrap();

    let p1_other_participants: Vec<Participant> = Vec::with_capacity(0);
    let p1_state =
        DistributedKeyGeneration::<RoundOne>::new(&params, p1.index, &p1coeffs, p1_other_participants)
            .unwrap();
    let p1_my_secret_shares = Vec::with_capacity(0);
    let p1_state = p1_state.to_round_two(p1_my_secret_shares).unwrap();

    let (group_key, p1_sk) = p1_state.finish(&p1.public_key().unwrap()).unwrap();

    let context = b"CONTEXT STRING STOLEN FROM DALEK TEST SUITE";
    let message = b"This is a test of the tsunami alert system. This is only a test.";
    let (p1_public_comshares, mut p1_secret_comshares) = generate_commitment_share_lists(1, 1);

    let mut aggregator =
        SignatureAggregator::new(params, group_key, context.to_vec(), message.to_vec());

    aggregator.include_signer(1, p1_public_comshares.commitments[0], p1_sk.to_public());

    let signers = aggregator.get_signers();
    let message_hash = compute_message_hash(&context[..], &message[..]);

    let p1_partial = p1_sk
        .sign(&message_hash, &group_key, &mut p1_secret_comshares, 0, signers)
        .unwrap();

    aggregator.include_partial_signature(p1_partial);

    let aggregator = aggregator.finalize().unwrap();
    let threshold_signature = aggregator.aggregate().unwrap();
    let verification_result = threshold_signature.verify(&group_key, &message_hash);

    assert!(verification_result.is_ok());
}

#[test]
fn signing_and_verification_1_out_of_2() {
    let params = FrostInfo { thresholdvalue: 1, totalvalue: 2 };

    let (p1, p1coeffs) = Participant::new(&params, 1).unwrap();
    let (p2, p2coeffs) = Participant::new(&params, 2).unwrap();

    let p1_other_participants: Vec<Participant> = vec![p2.clone()];
    let p1_state =
        DistributedKeyGeneration::<RoundOne>::new(&params, p1.index, &p1coeffs, p1_other_participants)
            .unwrap();
    let p1_their_secret_shares = p1_state.their_secret_shares().unwrap();

    let p2_other_participants: Vec<Participant> = vec![p1.clone()];
    let p2_state =
        DistributedKeyGeneration::<RoundOne>::new(&params, p2.index, &p2coeffs, p2_other_participants)
            .unwrap();
    let p2_their_secret_shares = p2_state.their_secret_shares().unwrap();

    let p1_my_secret_shares = vec![p2_their_secret_shares[0].clone()];
    let p2_my_secret_shares = vec![p1_their_secret_shares[0].clone()];

    let p1_state = p1_state.to_round_two(p1_my_secret_shares).unwrap();
    let p2_state = p2_state.to_round_two(p2_my_secret_shares).unwrap();

    let (group_key, p1_sk) = p1_state.finish(&p1.public_key().unwrap()).unwrap();
    let (_, _p2_sk) = p2_state.finish(&p2.public_key().unwrap()).unwrap();

    let context = b"CONTEXT STRING STOLEN FROM DALEK TEST SUITE";
    let message = b"This is a test of the tsunami alert system. This is only a test.";
    let (p1_public_comshares, mut p1_secret_comshares) = generate_commitment_share_lists(1, 1);

    let mut aggregator =
        SignatureAggregator::new(params, group_key, context.to_vec(), message.to_vec());

    aggregator.include_signer(1, p1_public_comshares.commitments[0], p1_sk.to_public());

    let signers = aggregator.get_signers();
    let message_hash = compute_message_hash(&context[..], &message[..]);

    let p1_partial = p1_sk
        .sign(&message_hash, &group_key, &mut p1_secret_comshares, 0, signers)
        .unwrap();

    aggregator.include_partial_signature(p1_partial);

    let aggregator = aggregator.finalize().unwrap();
    let threshold_signature = aggregator.aggregate().unwrap();
    let verification_result = threshold_signature.verify(&group_key, &message_hash);

    assert!(verification_result.is_ok());
}

#[test]
fn signing_and_verification_3_out_of_5() {
    let params = FrostInfo { thresholdvalue: 3, totalvalue: 5 };

    let (p1, p1coeffs) = Participant::new(&params, 1).unwrap();
    let (p2, p2coeffs) = Participant::new(&params, 2).unwrap();
    let (p3, p3coeffs) = Participant::new(&params, 3).unwrap();
    let (p4, p4coeffs) = Participant::new(&params, 4).unwrap();
    let (p5, p5coeffs) = Participant::new(&params, 5).unwrap();

    let p1_other_participants: Vec<Participant> =
        vec![p2.clone(), p3.clone(), p4.clone(), p5.clone()];
    let p1_state =
        DistributedKeyGeneration::<RoundOne>::new(&params, p1.index, &p1coeffs, p1_other_participants)
            .unwrap();
    let p1_their_secret_shares = p1_state.their_secret_shares().unwrap();

    let p2_other_participants: Vec<Participant> =
        vec![p1.clone(), p3.clone(), p4.clone(), p5.clone()];
    let p2_state =
        DistributedKeyGeneration::<RoundOne>::new(&params, p2.index, &p2coeffs, p2_other_participants)
            .unwrap();
    let p2_their_secret_shares = p2_state.their_secret_shares().unwrap();

    let p3_other_participants: Vec<Participant> =
        vec![p1.clone(), p2.clone(), p4.clone(), p5.clone()];
    let p3_state =
        DistributedKeyGeneration::<RoundOne>::new(&params, p3.index, &p3coeffs, p3_other_participants)
            .unwrap();
    let p3_their_secret_shares = p3_state.their_secret_shares().unwrap();

    let p4_other_participants: Vec<Participant> =
        vec![p1.clone(), p2.clone(), p3.clone(), p5.clone()];
    let p4_state =
        DistributedKeyGeneration::<RoundOne>::new(&params, p4.index, &p4coeffs, p4_other_participants)
            .unwrap();
    let p4_their_secret_shares = p4_state.their_secret_shares().unwrap();

    let p5_other_participants: Vec<Participant> =
        vec![p1.clone(), p2.clone(), p3.clone(), p4.clone()];
    let p5_state =
        DistributedKeyGeneration::<RoundOne>::new(&params, p5.index, &p5coeffs, p5_other_participants)
            .unwrap();
    let p5_their_secret_shares = p5_state.their_secret_shares().unwrap();

    let p1_my_secret_shares = vec![
        p2_their_secret_shares[0].clone(),
        p3_their_secret_shares[0].clone(),
        p4_their_secret_shares[0].clone(),
        p5_their_secret_shares[0].clone(),
    ];

    let p2_my_secret_shares = vec![
        p1_their_secret_shares[0].clone(),
        p3_their_secret_shares[1].clone(),
        p4_their_secret_shares[1].clone(),
        p5_their_secret_shares[1].clone(),
    ];

    let p3_my_secret_shares = vec![
        p1_their_secret_shares[1].clone(),
        p2_their_secret_shares[1].clone(),
        p4_their_secret_shares[2].clone(),
        p5_their_secret_shares[2].clone(),
    ];

    let p4_my_secret_shares = vec![
        p1_their_secret_shares[2].clone(),
        p2_their_secret_shares[2].clone(),
        p3_their_secret_shares[2].clone(),
        p5_their_secret_shares[3].clone(),
    ];

    let p5_my_secret_shares = vec![
        p1_their_secret_shares[3].clone(),
        p2_their_secret_shares[3].clone(),
        p3_their_secret_shares[3].clone(),
        p4_their_secret_shares[3].clone(),
    ];

    let _p1_state = p1_state.to_round_two(p1_my_secret_shares).unwrap();
    let _p2_state = p2_state.to_round_two(p2_my_secret_shares).unwrap();
    let _p3_state = p3_state.to_round_two(p3_my_secret_shares).unwrap();
    let _p4_state = p4_state.to_round_two(p4_my_secret_shares).unwrap();
    let _p5_state = p5_state.to_round_two(p5_my_secret_shares).unwrap();
}

#[test]
fn signing_and_verification_2_out_of_3() {
    fn do_keygen() -> Result<(FrostInfo, SecretKey, SecretKey, SecretKey, GroupKey), ()> {
        let params = FrostInfo { thresholdvalue: 2, totalvalue: 3 };

        let (p1, p1coeffs) = Participant::new(&params, 1).ok_or(())?;
        let (p2, p2coeffs) = Participant::new(&params, 2).ok_or(())?;
        let (p3, p3coeffs) = Participant::new(&params, 3).ok_or(())?;

        p2.proof_of_secret_key.verify(p2.index, &p2.commitments[0])?;
        p3.proof_of_secret_key.verify(p3.index, &p3.commitments[0])?;

        let p1_other_participants: Vec<Participant> = vec![p2.clone(), p3.clone()];
        let p1_state = DistributedKeyGeneration::<RoundOne>::new(
            &params,
            p1.index,
            &p1coeffs,
            p1_other_participants,
        )
        .or(Err(()))?;
        let p1_their_secret_shares = p1_state.their_secret_shares()?;

        let p2_other_participants: Vec<Participant> = vec![p1.clone(), p3.clone()];
        let p2_state = DistributedKeyGeneration::<RoundOne>::new(
            &params,
            p2.index,
            &p2coeffs,
            p2_other_participants,
        )
        .or(Err(()))?;
        let p2_their_secret_shares = p2_state.their_secret_shares()?;

        let p3_other_participants: Vec<Participant> = vec![p1.clone(), p2.clone()];
        let p3_state = DistributedKeyGeneration::<RoundOne>::new(
            &params,
            p3.index,
            &p3coeffs,
            p3_other_participants,
        )
        .or(Err(()))?;
        let p3_their_secret_shares = p3_state.their_secret_shares()?;

        let p1_my_secret_shares =
            vec![p2_their_secret_shares[0].clone(), p3_their_secret_shares[0].clone()];
        let p2_my_secret_shares =
            vec![p1_their_secret_shares[0].clone(), p3_their_secret_shares[1].clone()];
        let p3_my_secret_shares =
            vec![p1_their_secret_shares[1].clone(), p2_their_secret_shares[1].clone()];

        let p1_state = p1_state.to_round_two(p1_my_secret_shares).or(Err(()))?;
        let p2_state = p2_state.to_round_two(p2_my_secret_shares).or(Err(()))?;
        let p3_state = p3_state.to_round_two(p3_my_secret_shares).or(Err(()))?;

        let (p1_group_key, p1_secret_key) =
            p1_state.finish(&p1.public_key().unwrap()).or(Err(()))?;
        let (p2_group_key, p2_secret_key) =
            p2_state.finish(&p2.public_key().unwrap()).or(Err(()))?;
        let (p3_group_key, p3_secret_key) =
            p3_state.finish(&p3.public_key().unwrap()).or(Err(()))?;

        assert!(p1_group_key.0.to_bytes() == p2_group_key.0.to_bytes());
        assert!(p2_group_key.0.to_bytes() == p3_group_key.0.to_bytes());

        Ok((params, p1_secret_key, p2_secret_key, p3_secret_key, p1_group_key))
    }
    let keygen_protocol = do_keygen();

    assert!(keygen_protocol.is_ok());

    let (params, p1_sk, p2_sk, _p3_sk, group_key) = keygen_protocol.unwrap();

    let context = b"CONTEXT STRING STOLEN FROM DALEK TEST SUITE";
    let message = b"This is a test of the tsunami alert system. This is only a test.";
    let (p1_public_comshares, mut p1_secret_comshares) = generate_commitment_share_lists(1, 1);
    let (p2_public_comshares, mut p2_secret_comshares) = generate_commitment_share_lists(2, 1);

    let mut aggregator =
        SignatureAggregator::new(params, group_key.clone(), context.to_vec(), message.to_vec());

    aggregator.include_signer(1, p1_public_comshares.commitments[0], p1_sk.to_public());
    aggregator.include_signer(2, p2_public_comshares.commitments[0], p2_sk.to_public());

    let signers = aggregator.get_signers();
    let message_hash = compute_message_hash(&context[..], &message[..]);

    let p1_partial = p1_sk
        .sign(&message_hash, &group_key, &mut p1_secret_comshares, 0, signers)
        .unwrap();
    let p2_partial = p2_sk
        .sign(&message_hash, &group_key, &mut p2_secret_comshares, 0, signers)
        .unwrap();

    aggregator.include_partial_signature(p1_partial);
    aggregator.include_partial_signature(p2_partial);

    let aggregator = aggregator.finalize().unwrap();
    let signing_result = aggregator.aggregate();

    assert!(signing_result.is_ok());

    let threshold_signature = signing_result.unwrap();
    let verification_result = threshold_signature.verify(&group_key, &message_hash);

    println!("{:?}", verification_result);

    assert!(verification_result.is_ok());
}

#[test]
fn aggregator_get_signers() {
    let params = FrostInfo { thresholdvalue: 2, totalvalue: 3 };
    let context = b"CONTEXT STRING STOLEN FROM DALEK TEST SUITE";
    let message = b"This is a test of the tsunami alert system. This is only a test.";

    let (p1_public_comshares, _) = generate_commitment_share_lists(1, 1);
    let (p2_public_comshares, _) = generate_commitment_share_lists(2, 1);

    let mut aggregator = SignatureAggregator::new(
        params,
        GroupKey(Point::identity()),
        context.to_vec(),
        message.to_vec(),
    );

    let p1_sk = SecretKey { index: 1, key: Scalar::random() };
    let p2_sk = SecretKey { index: 2, key: Scalar::random() };

    aggregator.include_signer(2, p2_public_comshares.commitments[0], p2_sk.to_public());
    aggregator.include_signer(1, p1_public_comshares.commitments[0], p1_sk.to_public());
    aggregator.include_signer(2, p2_public_comshares.commitments[0], p2_sk.to_public());

    let signers = aggregator.get_signers();

    // The signers should be deduplicated.
    assert!(signers.len() == 2);

    // The indices should match and be in sorted order.
    assert!(signers[0].participant_index == 1);
    assert!(signers[1].participant_index == 2);

    // Participant 1 should have the correct precomputed shares.
    assert!(signers[0].published_commitment_share.0 == p1_public_comshares.commitments[0].0);
    assert!(signers[0].published_commitment_share.1 == p1_public_comshares.commitments[0].1);

    // Same for participant 2.
    assert!(signers[1].published_commitment_share.0 == p2_public_comshares.commitments[0].0);
    assert!(signers[1].published_commitment_share.1 == p2_public_comshares.commitments[0].1);
}
