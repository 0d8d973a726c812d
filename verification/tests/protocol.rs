use facematch::codec::{artifact_from_bytes, artifact_to_bytes, decode_record, DecodingError};
use facematch::comparator::{run_comparator, ValidationFailure};
use facematch::model::{Descriptor, FaceComparisonInput, MatchResult, Metric, ProofArtifact};
use facematch::orchestrator::{
    build_environment, comparator_image, prove, program_identity_of, verify, verify_face,
    FaceVerificationError, InputSerializationError, ProvingBackend, ProvingError,
    SIMILARITY_THRESHOLD,
};

fn descriptor(coords: Vec<i64>) -> Descriptor {
    Descriptor::new(coords).expect("coordinates in range")
}

fn fixed(values: &[f32]) -> Descriptor {
    descriptor(values.iter().map(|&v| (v * 1000.0).round() as i64).collect())
}

#[test]
fn test_face_verification() {
    // Two identical all-zero descriptors: both norms are zero, so the
    // similarity is defined as 0.0, below the 0.6 threshold.
    let reference = fixed(&[0.0; 128]);
    let attempt = fixed(&[0.0; 128]);

    let result = verify_face(reference, attempt).unwrap();

    assert!(!result.output.is_match);
    assert_eq!(result.output.score, Some(0));
}

#[test]
fn test_face_verification_different() {
    let reference = fixed(&[1.0; 128]);
    let attempt = fixed(&[0.0; 128]);

    let result = verify_face(reference, attempt).unwrap();

    assert!(!result.output.is_match);
    assert!(result.output.score.unwrap() < 600);
}

#[test]
fn self_comparison_distance_is_zero() {
    let coords: Vec<i64> = (0..128).map(|i| (i as i64) * 13 - 700).collect();
    let request = FaceComparisonInput {
        reference: descriptor(coords.clone()),
        attempt: descriptor(coords),
        threshold: 0,
        metric: Metric::SquaredEuclidean,
    };
    let record = run_comparator(&request).unwrap();
    let output = decode_record(&record).unwrap();
    assert!(output.is_match);
    assert_eq!(output.score, Some(0));
}

#[test]
fn self_comparison_similarity_is_one() {
    let reference = fixed(&[1.0; 128]);
    let attempt = fixed(&[1.0; 128]);
    let result = verify_face(reference, attempt).unwrap();
    assert!(result.output.is_match);
    assert_eq!(result.output.score, Some(1000));
}

#[test]
fn metrics_are_symmetric() {
    let a_coords: Vec<i64> = (0..128).map(|i| (i as i64 % 17) * 50 - 400).collect();
    let b_coords: Vec<i64> = (0..128).map(|i| (i as i64 % 11) * 90 - 450).collect();
    for metric in [Metric::SquaredEuclidean, Metric::CosineSimilarity] {
        for threshold in [-500i64, 0, 300, 600] {
            let forward = FaceComparisonInput {
                reference: descriptor(a_coords.clone()),
                attempt: descriptor(b_coords.clone()),
                threshold,
                metric,
            };
            let backward = FaceComparisonInput {
                reference: descriptor(b_coords.clone()),
                attempt: descriptor(a_coords.clone()),
                threshold,
                metric,
            };
            let fw = decode_record(&run_comparator(&forward).unwrap()).unwrap();
            let bw = decode_record(&run_comparator(&backward).unwrap()).unwrap();
            assert_eq!(fw.is_match, bw.is_match);
            assert_eq!(fw.score, bw.score);
        }
    }
}

#[test]
fn distance_threshold_is_inclusive() {
    let mut a = vec![0i64; 128];
    a[0] = 3;
    let request = |threshold: i64| FaceComparisonInput {
        reference: descriptor(a.clone()),
        attempt: descriptor(vec![0i64; 128]),
        threshold,
        metric: Metric::SquaredEuclidean,
    };
    let at = decode_record(&run_comparator(&request(9)).unwrap()).unwrap();
    assert!(at.is_match);
    assert_eq!(at.score, Some(9));
    let below = decode_record(&run_comparator(&request(8)).unwrap()).unwrap();
    assert!(!below.is_match);
}

#[test]
fn similarity_threshold_is_inclusive() {
    // reference (1, 0, ...), attempt (0.6, 0.8, 0, ...): similarity 0.6 exactly.
    let mut a = vec![0i64; 128];
    a[0] = 1000;
    let mut b = vec![0i64; 128];
    b[0] = 600;
    b[1] = 800;
    let request = |threshold: i64| FaceComparisonInput {
        reference: descriptor(a.clone()),
        attempt: descriptor(b.clone()),
        threshold,
        metric: Metric::CosineSimilarity,
    };
    let at = decode_record(&run_comparator(&request(600)).unwrap()).unwrap();
    assert!(at.is_match);
    assert_eq!(at.score, Some(600));
    let above = decode_record(&run_comparator(&request(601)).unwrap()).unwrap();
    assert!(!above.is_match);
}

#[test]
fn zero_norm_similarity_is_zero() {
    let zero = fixed(&[0.0; 128]);
    let other = fixed(&[1.0; 128]);
    let result = verify_face(zero, other).unwrap();
    assert!(!result.output.is_match);
    assert_eq!(result.output.score, Some(0));
}

#[test]
fn wrong_descriptor_length_aborts() {
    for len in [64usize, 129] {
        let reference = descriptor(vec![0i64; len]);
        let attempt = fixed(&[0.0; 128]);
        match verify_face(reference, attempt) {
            Err(FaceVerificationError::Proving(ProvingError::Aborted(
                ValidationFailure::WrongReferenceLength,
            ))) => {},
            other => panic!("expected an abort, got {:?}", other.is_ok()),
        }
        let request = FaceComparisonInput {
            reference: fixed(&[0.0; 128]),
            attempt: descriptor(vec![0i64; len]),
            threshold: 600,
            metric: Metric::CosineSimilarity,
        };
        assert_eq!(
            run_comparator(&request).unwrap_err(),
            ValidationFailure::WrongAttemptLength
        );
    }
}

#[test]
fn end_to_end_distance_metric() {
    let request = FaceComparisonInput {
        reference: fixed(&[0.0; 128]),
        attempt: fixed(&[0.0; 128]),
        threshold: 0,
        metric: Metric::SquaredEuclidean,
    };
    let session = build_environment(request).unwrap();
    let backend = ProvingBackend::new();
    let image = comparator_image();
    let (artifact, record) = prove(&backend, session, &image).unwrap();
    let output = decode_record(&record).unwrap();
    assert!(output.is_match);
    assert_eq!(output.score, Some(0));

    let correct = program_identity_of(&image);
    assert!(verify(&artifact, &correct));
    let mut other_image = comparator_image();
    other_image[0] ^= 0xff;
    let wrong = program_identity_of(&other_image);
    assert!(!verify(&artifact, &wrong));
}

#[test]
fn end_to_end_similarity_metric() {
    let result = verify_face(fixed(&[1.0; 128]), fixed(&[1.0; 128])).unwrap();
    assert!(result.output.is_match);
    assert_eq!(result.output.score, Some(1000));
    let image = comparator_image();
    let correct = program_identity_of(&image);
    assert!(verify(&result.artifact, &correct));
    let mut other_image = comparator_image();
    other_image[3] = other_image[3].wrapping_add(1);
    let wrong = program_identity_of(&other_image);
    assert!(!verify(&result.artifact, &wrong));
}

#[test]
fn end_to_end_mismatch_similarity() {
    // reference all ones, attempt all zeros, threshold 0.6: similarity 0.0.
    let result = verify_face(fixed(&[1.0; 128]), fixed(&[0.0; 128])).unwrap();
    assert!(!result.output.is_match);
    assert_eq!(result.output.score, Some(0));
    assert_eq!(SIMILARITY_THRESHOLD, 600);
}

#[test]
fn artifact_round_trips_through_bytes() {
    let result = verify_face(fixed(&[1.0; 128]), fixed(&[1.0; 128])).unwrap();
    let image = comparator_image();
    let correct = program_identity_of(&image);
    let mut other_image = comparator_image();
    other_image[7] ^= 0x40;
    let wrong = program_identity_of(&other_image);

    let stored = artifact_to_bytes(&result.artifact);
    let reloaded = artifact_from_bytes(&stored).unwrap();
    assert_eq!(reloaded.identity, result.artifact.identity);
    assert_eq!(reloaded.seal, result.artifact.seal);
    assert_eq!(reloaded.record, result.artifact.record);
    assert_eq!(verify(&reloaded, &correct), verify(&result.artifact, &correct));
    assert!(verify(&reloaded, &correct));
    assert_eq!(verify(&reloaded, &wrong), verify(&result.artifact, &wrong));
    assert!(!verify(&reloaded, &wrong));
}

#[test]
fn tampered_record_is_rejected() {
    let result = verify_face(fixed(&[1.0; 128]), fixed(&[1.0; 128])).unwrap();
    let image = comparator_image();
    let correct = program_identity_of(&image);
    assert!(verify(&result.artifact, &correct));
    for k in 0..result.artifact.record.len() {
        let mut record = result.artifact.record.clone();
        record[k] ^= 0x01;
        let tampered = ProofArtifact {
            identity: result.artifact.identity,
            record,
            seal: result.artifact.seal,
        };
        assert!(!verify(&tampered, &correct));
    }
}

#[test]
fn tampered_seal_is_rejected() {
    let result = verify_face(fixed(&[1.0; 128]), fixed(&[1.0; 128])).unwrap();
    let image = comparator_image();
    let correct = program_identity_of(&image);
    for bit in 0..64 {
        let tampered = ProofArtifact {
            identity: result.artifact.identity,
            record: result.artifact.record.clone(),
            seal: result.artifact.seal ^ (1u64 << bit),
        };
        assert!(!verify(&tampered, &correct));
    }
}

#[test]
fn tampered_stored_artifact_is_rejected() {
    let result = verify_face(fixed(&[1.0; 128]), fixed(&[1.0; 128])).unwrap();
    let image = comparator_image();
    let correct = program_identity_of(&image);
    let stored = artifact_to_bytes(&result.artifact);
    for k in 0..stored.len() {
        let mut bytes = stored.clone();
        bytes[k] ^= 0xff;
        match artifact_from_bytes(&bytes) {
            Err(_) => {},
            Ok(reloaded) => assert!(!verify(&reloaded, &correct)),
        }
    }
}

#[test]
fn serialization_rejects_out_of_range_input() {
    let request = FaceComparisonInput {
        reference: Descriptor { coords: vec![2_000_000i64; 128] },
        attempt: fixed(&[0.0; 128]),
        threshold: 600,
        metric: Metric::CosineSimilarity,
    };
    match build_environment(request) {
        Err(InputSerializationError::CoordinateOutOfRange) => {},
        _ => panic!("expected a coordinate range error"),
    }
    let request = FaceComparisonInput {
        reference: fixed(&[0.0; 128]),
        attempt: fixed(&[0.0; 128]),
        threshold: 3_000_000_000_000_000,
        metric: Metric::SquaredEuclidean,
    };
    match build_environment(request) {
        Err(InputSerializationError::ThresholdOutOfRange) => {},
        _ => panic!("expected a threshold range error"),
    }
    assert!(Descriptor::new(vec![2_000_000i64; 128]).is_none());
}

#[test]
fn unknown_program_image_is_refused() {
    let request = FaceComparisonInput {
        reference: fixed(&[0.0; 128]),
        attempt: fixed(&[0.0; 128]),
        threshold: 0,
        metric: Metric::SquaredEuclidean,
    };
    let session = build_environment(request).unwrap();
    let backend = ProvingBackend::new();
    let mut image = comparator_image();
    image[1] ^= 0x10;
    assert_eq!(
        prove(&backend, session, &image).unwrap_err(),
        ProvingError::UnknownProgram
    );
}

#[test]
fn malformed_records_are_rejected() {
    assert_eq!(
        decode_record(&vec![1u8; 9]).unwrap_err(),
        DecodingError::WrongLength
    );
    let mut bad_tag = vec![0u8; 10];
    bad_tag[0] = 7;
    assert_eq!(decode_record(&bad_tag).unwrap_err(), DecodingError::InvalidTag);
    let mut bad_field = vec![0u8; 10];
    bad_field[1] = 0;
    bad_field[2] = 1;
    assert_eq!(
        decode_record(&bad_field).unwrap_err(),
        DecodingError::FieldOutOfRange
    );
    let mut huge_score = vec![0u8; 10];
    huge_score[1] = 1;
    for b in huge_score.iter_mut().skip(2) {
        *b = 0xff;
    }
    assert_eq!(
        decode_record(&huge_score).unwrap_err(),
        DecodingError::FieldOutOfRange
    );
}

#[test]
fn record_layout_is_exact() {
    // A committed record is ten bytes: decision, score tag, offset score.
    let request = FaceComparisonInput {
        reference: fixed(&[0.0; 128]),
        attempt: fixed(&[0.0; 128]),
        threshold: 0,
        metric: Metric::SquaredEuclidean,
    };
    let record = run_comparator(&request).unwrap();
    assert_eq!(record.len(), 10);
    assert_eq!(record[0], 1);
    assert_eq!(record[1], 1);
    // score 0 is stored offset by 2_000_000_000_000_000.
    let enc = u64::from_le_bytes(record[2..10].try_into().unwrap());
    assert_eq!(enc, 2_000_000_000_000_000);
    let decoded: MatchResult = decode_record(&record).unwrap();
    assert!(decoded.is_match);
    assert_eq!(decoded.score, Some(0));
}
