//! The comparator: the deterministic guest computation.
//!
//! It validates the request, computes the configured metric, decides the
//! match, and commits exactly one public record.  A request that fails
//! validation aborts the run: no record is committed and no proof can be
//! produced for it, so a malformed input can never yield a provable result,
//! not even a negative one.

use vstd::prelude::*;
use crate::codec::{encode_record, parse_record, record_bytes, lemma_record_round_trip};
use crate::metric::{
    coords_bounded, cosine_decision, cosine_match, cosine_score, dist_sq, distance_decision,
    distance_match,
};
use crate::model::{FaceComparisonInput, MatchResult, Metric};
use crate::{DESCRIPTOR_LEN, MAX_COORD, THRESHOLD_MAX};

verus! {

/// Why the comparator aborted without committing a record.
#[derive(Clone, Copy, Debug, PartialEq, Eq)]
pub enum ValidationFailure {
    /// The reference descriptor does not have exactly `DESCRIPTOR_LEN` coordinates.
    WrongReferenceLength,
    /// The attempt descriptor does not have exactly `DESCRIPTOR_LEN` coordinates.
    WrongAttemptLength,
    /// A coordinate is outside the fixed-point range of the input channel.
    CoordinateOutOfRange,
    /// The threshold is outside the fixed-point range of the input channel.
    ThresholdOutOfRange,
}

/// The whole validation the comparator performs before it computes anything.
pub open spec fn request_valid(req: FaceComparisonInput) -> bool {
    &&& req.reference@.len() == DESCRIPTOR_LEN
    &&& req.attempt@.len() == DESCRIPTOR_LEN
    &&& req.wf()
}

/// The abort reason for an invalid request, in the order the checks run.
pub open spec fn expected_failure(req: FaceComparisonInput) -> ValidationFailure {
    if req.reference@.len() != DESCRIPTOR_LEN {
        ValidationFailure::WrongReferenceLength
    } else if req.attempt@.len() != DESCRIPTOR_LEN {
        ValidationFailure::WrongAttemptLength
    } else if !(req.reference.wf() && req.attempt.wf()) {
        ValidationFailure::CoordinateOutOfRange
    } else {
        ValidationFailure::ThresholdOutOfRange
    }
}

/// The result the comparator commits for a valid request: the metric's match
/// decision, and the metric value as the score (the exact squared distance,
/// or the rounded fixed-point similarity).
pub open spec fn decision_of(req: FaceComparisonInput) -> MatchResult {
    match req.metric {
        Metric::SquaredEuclidean => MatchResult {
            is_match: distance_match(req.reference@, req.attempt@, req.threshold as int),
            score: Some(dist_sq(req.reference@, req.attempt@) as i64),
        },
        Metric::CosineSimilarity => MatchResult {
            is_match: cosine_match(req.reference@, req.attempt@, req.threshold as int),
            score: Some(cosine_score(req.reference@, req.attempt@) as i64),
        },
    }
}

/// The comparator as a pure function from request to committed record bytes:
/// `None` when the run aborts.
pub open spec fn comparator_output(req: FaceComparisonInput) -> Option<Seq<u8>> {
    if request_valid(req) {
        Some(record_bytes(decision_of(req)))
    } else {
        None
    }
}

/// Every coordinate of `v` lies within the input channel's range.
pub(crate) fn coords_in_range(v: &Vec<i64>) -> (r: bool)
    ensures
        r == coords_bounded(v@, MAX_COORD as int),
{
    let mut i: usize = 0;
    while i < v.len()
        invariant
            i <= v@.len(),
            forall|j: int| 0 <= j < i ==>
                -(MAX_COORD as int) <= #[trigger] v@[j] <= MAX_COORD as int,
        decreases v@.len() - i,
    {
        if v[i] < -MAX_COORD || v[i] > MAX_COORD {
            return false;
        }
        i = i + 1;
    }
    true
}

/// Runs the comparator: validates the request, computes the metric, and
/// commits the public record, or aborts.
pub fn run_comparator(req: &FaceComparisonInput) -> (r: Result<Vec<u8>, ValidationFailure>)
    ensures
        r is Ok <==> request_valid(*req),
        match r {
            Ok(bytes) => {
                &&& comparator_output(*req) == Some(bytes@)
                &&& parse_record(bytes@) == Some(decision_of(*req))
                &&& decision_of(*req).wf()
            },
            Err(e) => e == expected_failure(*req),
        },
{
    if req.reference.len() != DESCRIPTOR_LEN {
        return Err(ValidationFailure::WrongReferenceLength);
    }
    if req.attempt.len() != DESCRIPTOR_LEN {
        return Err(ValidationFailure::WrongAttemptLength);
    }
    if !coords_in_range(&req.reference.coords) || !coords_in_range(&req.attempt.coords) {
        return Err(ValidationFailure::CoordinateOutOfRange);
    }
    if req.threshold < -THRESHOLD_MAX || req.threshold > THRESHOLD_MAX {
        return Err(ValidationFailure::ThresholdOutOfRange);
    }
    let decision: (bool, i64) = match req.metric {
        Metric::SquaredEuclidean => {
            distance_decision(&req.reference.coords, &req.attempt.coords, req.threshold)
        },
        Metric::CosineSimilarity => {
            cosine_decision(&req.reference.coords, &req.attempt.coords, req.threshold)
        },
    };
    let result = MatchResult { is_match: decision.0, score: Some(decision.1) };
    proof {
        assert(result == decision_of(*req));
        lemma_record_round_trip(result);
    }
    Ok(encode_record(&result))
}

} // verus!
