//! The host-side orchestration: packaging private inputs, driving the
//! proving backend, extracting the public record, and verifying artifacts.
//!
//! A session moves from built to proving to exactly one of proved, aborted
//! or failed.  The types enforce that order: a `SessionHandle` is consumed
//! by `prove`, so a failed session cannot be reused, and a record or an
//! artifact exists only after a proved run.

use vstd::prelude::*;
use crate::codec::{
    DecodingError, artifact_bytes, decode_record, parse_artifact, parse_record, push_u64_le,
    record_bytes, u64_le,
};
use crate::comparator::{
    ValidationFailure, comparator_output, decision_of, expected_failure, request_valid,
    run_comparator,
};
use crate::DESCRIPTOR_LEN;
use crate::digest::{digest_bytes, digest_of, lemma_digest_byte_flip};
use crate::metric::{cosine_match, cosine_score};
use crate::model::{
    Descriptor, FaceComparisonInput, MatchResult, Metric, ProgramIdentity, ProofArtifact,
};

verus! {

/// Fixed-point cosine-similarity threshold used by `verify_face`
/// (the real value 0.6).
pub const SIMILARITY_THRESHOLD: i64 = 600;

/// The request cannot be packaged for the private input channel.
#[derive(Clone, Copy, Debug, PartialEq, Eq)]
pub enum InputSerializationError {
    /// A descriptor coordinate is outside the channel's fixed-point range.
    CoordinateOutOfRange,
    /// The threshold is outside the channel's fixed-point range.
    ThresholdOutOfRange,
}

/// The backend produced no proof.
#[derive(Clone, Copy, Debug, PartialEq, Eq)]
pub enum ProvingError {
    /// The comparator aborted on the given input: rejected input, not a
    /// system failure.
    Aborted(ValidationFailure),
    /// The backend cannot execute the given program image: a system failure,
    /// not a statement about the input.
    UnknownProgram,
}

/// A built proving session: one packaged request, consumed by one `prove`.
pub struct SessionHandle {
    pub request: FaceComparisonInput,
}

/// Packages a request for the proving backend.  Fails exactly when the
/// request does not fit the private input channel's numeric ranges.
pub fn build_environment(req: FaceComparisonInput) -> (r: Result<
    SessionHandle,
    InputSerializationError,
>)
    ensures
        r is Ok <==> req.wf(),
        match r {
            Ok(s) => s.request == req,
            Err(e) => e == (if !(req.reference.wf() && req.attempt.wf()) {
                InputSerializationError::CoordinateOutOfRange
            } else {
                InputSerializationError::ThresholdOutOfRange
            }),
        },
{
    if !crate::comparator::coords_in_range(&req.reference.coords)
        || !crate::comparator::coords_in_range(&req.attempt.coords) {
        return Err(InputSerializationError::CoordinateOutOfRange);
    }
    if req.threshold < -crate::THRESHOLD_MAX || req.threshold > crate::THRESHOLD_MAX {
        return Err(InputSerializationError::ThresholdOutOfRange);
    }
    Ok(SessionHandle { request: req })
}

/// The canonical comparator program image: the content tag of the one
/// program this backend can execute.
pub open spec fn comparator_image_spec() -> Seq<u8> {
    seq![0x66u8, 0x63u8, 0x6du8, 0x70u8, 0x00u8, 0x01u8, 0x00u8, 0x00u8]
}

/// Returns the canonical comparator program image.
pub fn comparator_image() -> (r: Vec<u8>)
    ensures
        r@ == comparator_image_spec(),
{
    let mut out: Vec<u8> = Vec::new();
    out.push(0x66);
    out.push(0x63);
    out.push(0x6d);
    out.push(0x70);
    out.push(0x00);
    out.push(0x01);
    out.push(0x00);
    out.push(0x00);
    proof {
        assert(out@ =~= comparator_image_spec());
    }
    out
}

/// The identity of a program image: the digest of its bytes.
pub fn program_identity_of(image: &Vec<u8>) -> (r: ProgramIdentity)
    ensures
        r.id == digest_of(image@),
{
    ProgramIdentity { id: digest_bytes(image) }
}

/// The bytes an artifact's seal covers: the identity, then the record.
pub open spec fn seal_input(identity: u64, record: Seq<u8>) -> Seq<u8> {
    u64_le(identity) + record
}

/// What `verify` checks: the artifact names the expected program, and its
/// seal is the digest of that identity together with the record.
pub open spec fn artifact_valid(a: ProofArtifact, expected: ProgramIdentity) -> bool {
    &&& a.identity == expected.id
    &&& a.seal == digest_of(seal_input(a.identity, a.record@))
}

/// Two byte vectors hold the same bytes.
fn bytes_equal(a: &Vec<u8>, b: &Vec<u8>) -> (r: bool)
    ensures
        r == (a@ == b@),
{
    if a.len() != b.len() {
        proof {
            assert(a@ != b@);
        }
        return false;
    }
    let mut i: usize = 0;
    while i < a.len()
        invariant
            a@.len() == b@.len(),
            i <= a@.len(),
            forall|j: int| 0 <= j < i ==> a@[j] == b@[j],
        decreases a@.len() - i,
    {
        if a[i] != b[i] {
            return false;
        }
        i = i + 1;
    }
    proof {
        assert(a@ =~= b@);
    }
    true
}

/// A copy of a byte vector.
fn copy_bytes(v: &Vec<u8>) -> (r: Vec<u8>)
    ensures
        r@ == v@,
{
    let mut out: Vec<u8> = Vec::new();
    let mut i: usize = 0;
    while i < v.len()
        invariant
            i <= v@.len(),
            out@ == v@.take(i as int),
        decreases v@.len() - i,
    {
        out.push(v[i]);
        proof {
            assert(v@.take(i as int + 1) =~= v@.take(i as int) + seq![v@[i as int]]);
        }
        i = i + 1;
    }
    proof {
        assert(v@.take(v@.len() as int) =~= v@);
    }
    out
}

/// The proving backend: executes the comparator inside the deterministic
/// boundary and attests the run.  Construct one and pass it by reference;
/// it is read-only and safe to share across sessions.
pub struct ProvingBackend {}

impl ProvingBackend {
    /// A backend handle.
    pub fn new() -> (r: ProvingBackend) {
        ProvingBackend {}
    }

    /// Executes the comparator under the given program image and attests the
    /// committed record.  Succeeds exactly when the image is the canonical
    /// comparator image and the request passes the comparator's validation.
    pub fn execute(&self, image: &Vec<u8>, session: SessionHandle) -> (r: Result<
        (ProofArtifact, Vec<u8>),
        ProvingError,
    >)
        ensures
            r is Ok <==> (image@ == comparator_image_spec() && request_valid(session.request)),
            match r {
                Ok((artifact, record)) => {
                    &&& comparator_output(session.request) == Some(record@)
                    &&& parse_record(record@) == Some(decision_of(session.request))
                    &&& artifact.record@ == record@
                    &&& artifact.identity == digest_of(image@)
                    &&& artifact.seal == digest_of(seal_input(artifact.identity, record@))
                    &&& artifact.wf()
                    &&& artifact_valid(artifact, ProgramIdentity { id: digest_of(image@) })
                },
                Err(e) => match e {
                    ProvingError::UnknownProgram => image@ != comparator_image_spec(),
                    ProvingError::Aborted(v) => {
                        &&& image@ == comparator_image_spec()
                        &&& !request_valid(session.request)
                        &&& v == expected_failure(session.request)
                    },
                },
            },
    {
        let canonical = comparator_image();
        if !bytes_equal(image, &canonical) {
            return Err(ProvingError::UnknownProgram);
        }
        match run_comparator(&session.request) {
            Err(v) => Err(ProvingError::Aborted(v)),
            Ok(record) => {
                let identity = digest_bytes(image);
                let mut sealed: Vec<u8> = Vec::new();
                push_u64_le(&mut sealed, identity);
                let mut i: usize = 0;
                while i < record.len()
                    invariant
                        i <= record@.len(),
                        sealed@ == u64_le(identity) + record@.take(i as int),
                    decreases record@.len() - i,
                {
                    sealed.push(record[i]);
                    proof {
                        assert(record@.take(i as int + 1)
                            =~= record@.take(i as int) + seq![record@[i as int]]);
                        assert(sealed@ =~= u64_le(identity) + record@.take(i as int + 1));
                    }
                    i = i + 1;
                }
                proof {
                    assert(record@.take(record@.len() as int) =~= record@);
                }
                let seal = digest_bytes(&sealed);
                let held = copy_bytes(&record);
                Ok((ProofArtifact { identity, record: held, seal }, record))
            },
        }
    }

    /// Checks an artifact against an expected program identity.
    pub fn check_artifact(&self, artifact: &ProofArtifact, expected: &ProgramIdentity) -> (r:
        bool)
        ensures
            r == artifact_valid(*artifact, *expected),
    {
        verify(artifact, expected)
    }
}

/// Proves one session under the given program image: the long-running call.
/// The session is consumed; to retry, build a fresh session.
pub fn prove(backend: &ProvingBackend, session: SessionHandle, image: &Vec<u8>) -> (r: Result<
    (ProofArtifact, Vec<u8>),
    ProvingError,
>)
    ensures
        r is Ok <==> (image@ == comparator_image_spec() && request_valid(session.request)),
        match r {
            Ok((artifact, record)) => {
                &&& comparator_output(session.request) == Some(record@)
                &&& parse_record(record@) == Some(decision_of(session.request))
                &&& artifact.record@ == record@
                &&& artifact.identity == digest_of(image@)
                &&& artifact.wf()
                &&& artifact_valid(artifact, ProgramIdentity { id: digest_of(image@) })
            },
            Err(e) => match e {
                ProvingError::UnknownProgram => image@ != comparator_image_spec(),
                ProvingError::Aborted(v) => {
                    &&& image@ == comparator_image_spec()
                    &&& !request_valid(session.request)
                    &&& v == expected_failure(session.request)
                },
            },
        },
{
    backend.execute(image, session)
}

/// Deserializes a public record into the match result it commits.  Fails
/// exactly when the bytes are not the canonical record of one result; a
/// malformed record is never coerced into a default result.
pub fn decode_result(record: &Vec<u8>) -> (r: Result<MatchResult, DecodingError>)
    ensures
        match r {
            Ok(m) => parse_record(record@) == Some(m) && m.wf(),
            Err(_) => parse_record(record@) is None,
        },
{
    decode_record(record)
}

/// Cryptographic check of an artifact against the expected program identity.
/// Returns `false` -- never an error -- when the artifact names a different
/// program or its seal does not match its contents.
pub fn verify(artifact: &ProofArtifact, expected: &ProgramIdentity) -> (r: bool)
    ensures
        r == artifact_valid(*artifact, *expected),
{
    if artifact.identity != expected.id {
        return false;
    }
    let mut sealed: Vec<u8> = Vec::new();
    push_u64_le(&mut sealed, artifact.identity);
    let mut i: usize = 0;
    while i < artifact.record.len()
        invariant
            i <= artifact.record@.len(),
            sealed@ == u64_le(artifact.identity) + artifact.record@.take(i as int),
        decreases artifact.record@.len() - i,
    {
        sealed.push(artifact.record[i]);
        proof {
            assert(artifact.record@.take(i as int + 1)
                =~= artifact.record@.take(i as int) + seq![artifact.record@[i as int]]);
            assert(sealed@ =~= u64_le(artifact.identity)
                + artifact.record@.take(i as int + 1));
        }
        i = i + 1;
    }
    proof {
        assert(artifact.record@.take(artifact.record@.len() as int) =~= artifact.record@);
    }
    let computed = digest_bytes(&sealed);
    computed == artifact.seal
}

/// An artifact reloaded from stored bytes verifies exactly as the original
/// did, against any expected identity.
pub proof fn lemma_reloaded_artifact_verifies_alike(
    a: ProofArtifact,
    b: ProofArtifact,
    expected: ProgramIdentity,
)
    requires
        a.wf(),
        parse_artifact(artifact_bytes(a)) == Some((b.identity, b.seal, b.record@)),
    ensures
        artifact_valid(b, expected) == artifact_valid(a, expected),
{
    crate::codec::lemma_artifact_round_trip(a);
}

/// Tamper evidence for the record: changing any single byte of a valid
/// artifact's public record makes `verify` reject it.
pub proof fn lemma_tampered_record_rejected(
    a: ProofArtifact,
    b: ProofArtifact,
    expected: ProgramIdentity,
    k: int,
)
    requires
        artifact_valid(a, expected),
        b.identity == a.identity,
        b.seal == a.seal,
        b.record@.len() == a.record@.len(),
        0 <= k < a.record@.len(),
        b.record@[k] != a.record@[k],
        forall|i: int| 0 <= i < a.record@.len() && i != k ==> b.record@[i] == a.record@[i],
    ensures
        !artifact_valid(b, expected),
{
    let sa = seal_input(a.identity, a.record@);
    let sb = seal_input(b.identity, b.record@);
    assert(sa.len() == sb.len());
    assert(sa[8 + k] != sb[8 + k]);
    assert forall|i: int| 0 <= i < sa.len() && i != 8 + k implies sa[i] == sb[i] by {
        if i >= 8 {
            assert(sa[i] == a.record@[i - 8]);
            assert(sb[i] == b.record@[i - 8]);
        }
    }
    lemma_digest_byte_flip(sa, sb, 8 + k);
}

/// Tamper evidence for the proof payload: changing the seal of a valid
/// artifact makes `verify` reject it.
pub proof fn lemma_tampered_seal_rejected(
    a: ProofArtifact,
    b: ProofArtifact,
    expected: ProgramIdentity,
)
    requires
        artifact_valid(a, expected),
        b.identity == a.identity,
        b.record@ == a.record@,
        b.seal != a.seal,
    ensures
        !artifact_valid(b, expected),
{
}

/// The result of one face verification: the attested artifact and the match
/// result extracted from its public record.
pub struct FaceVerificationResult {
    pub artifact: ProofArtifact,
    pub output: MatchResult,
}

/// Why `verify_face` returned no result.
#[derive(Clone, Copy, Debug, PartialEq, Eq)]
pub enum FaceVerificationError {
    /// The request could not be packaged for the input channel.
    Serialization(InputSerializationError),
    /// The backend produced no proof, most often a comparator abort.
    Proving(ProvingError),
    /// The public record did not parse as a match result.
    Decoding(DecodingError),
}

/// Compares two descriptors under the cosine-similarity metric at the fixed
/// threshold, proving the comparison and returning the decision with its
/// artifact.  Succeeds exactly on two well-formed descriptors of length
/// `DESCRIPTOR_LEN`.
pub fn verify_face(reference: Descriptor, attempt: Descriptor) -> (r: Result<
    FaceVerificationResult,
    FaceVerificationError,
>)
    ensures
        r is Ok <==> (reference@.len() == DESCRIPTOR_LEN
            && attempt@.len() == DESCRIPTOR_LEN
            && reference.wf() && attempt.wf()),
        match r {
            Ok(res) => {
                &&& res.output.is_match == cosine_match(
                    reference@, attempt@, SIMILARITY_THRESHOLD as int)
                &&& res.output.score == Some(
                    cosine_score(reference@, attempt@) as i64)
                &&& res.artifact.record@ == record_bytes(res.output)
                &&& res.artifact.wf()
                &&& artifact_valid(res.artifact, ProgramIdentity {
                    id: digest_of(comparator_image_spec()),
                })
            },
            Err(e) => match e {
                FaceVerificationError::Serialization(_) => !(reference.wf() && attempt.wf()),
                FaceVerificationError::Proving(pe) => {
                    &&& reference.wf() && attempt.wf()
                    &&& pe == ProvingError::Aborted(
                        if reference@.len() != DESCRIPTOR_LEN {
                            ValidationFailure::WrongReferenceLength
                        } else {
                            ValidationFailure::WrongAttemptLength
                        })
                },
                FaceVerificationError::Decoding(_) => false,
            },
        },
{
    let request = FaceComparisonInput {
        reference,
        attempt,
        threshold: SIMILARITY_THRESHOLD,
        metric: Metric::CosineSimilarity,
    };
    let session = match build_environment(request) {
        Ok(s) => s,
        Err(e) => {
            return Err(FaceVerificationError::Serialization(e));
        },
    };
    let backend = ProvingBackend::new();
    let image = comparator_image();
    let (artifact, record) = match prove(&backend, session, &image) {
        Ok(p) => p,
        Err(e) => {
            return Err(FaceVerificationError::Proving(e));
        },
    };
    let output = match decode_result(&record) {
        Ok(m) => m,
        Err(e) => {
            return Err(FaceVerificationError::Decoding(e));
        },
    };
    Ok(FaceVerificationResult { artifact, output })
}

} // verus!
