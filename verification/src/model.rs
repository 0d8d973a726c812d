//! Data model of the verification protocol.

use vstd::prelude::*;
use crate::metric::coords_bounded;
use crate::{MAX_COORD, THRESHOLD_MAX};

verus! {

/// A face descriptor: an ordered sequence of fixed-point coordinates.
/// Immutable once constructed.  A descriptor taking part in a comparison
/// must have exactly `DESCRIPTOR_LEN` coordinates; the comparator itself
/// enforces that, so that a wrong-sized descriptor can still be built and
/// handed to the protocol, which then aborts.
#[derive(Clone, Debug)]
pub struct Descriptor {
    pub coords: Vec<i64>,
}

impl View for Descriptor {
    type V = Seq<i64>;

    open spec fn view(&self) -> Seq<i64> {
        self.coords@
    }
}

impl Descriptor {
    /// Every coordinate fits the fixed-point range of the input channel.
    pub open spec fn wf(&self) -> bool {
        coords_bounded(self@, MAX_COORD as int)
    }

    /// Wraps raw fixed-point coordinates; `None` when a coordinate is out of
    /// the channel's range.
    pub fn new(coords: Vec<i64>) -> (r: Option<Descriptor>)
        ensures
            match r {
                Some(d) => d.wf() && d@ == coords@,
                None => !coords_bounded(coords@, MAX_COORD as int),
            },
    {
        let mut i: usize = 0;
        while i < coords.len()
            invariant
                i <= coords@.len(),
                forall|j: int| 0 <= j < i ==>
                    -(MAX_COORD as int) <= #[trigger] coords@[j] <= MAX_COORD as int,
            decreases coords@.len() - i,
        {
            if coords[i] < -MAX_COORD || coords[i] > MAX_COORD {
                return None;
            }
            i = i + 1;
        }
        Some(Descriptor { coords })
    }

    /// Number of coordinates.
    pub fn len(&self) -> (r: usize)
        ensures
            r == self@.len(),
    {
        self.coords.len()
    }
}

/// Which metric a comparison runs under.  Each variant fixes its own
/// threshold direction, both inclusive: squared Euclidean distance matches
/// when `distance <= threshold`; cosine similarity matches when
/// `similarity >= threshold`.
#[derive(Clone, Copy, Debug, PartialEq, Eq, Structural)]
pub enum Metric {
    SquaredEuclidean,
    CosineSimilarity,
}

/// A comparison request: the enrolled descriptor, the current attempt, the
/// metric, and the fixed-point threshold.  Consumed once per proving session.
#[derive(Clone, Debug)]
pub struct FaceComparisonInput {
    pub reference: Descriptor,
    pub attempt: Descriptor,
    pub threshold: i64,
    pub metric: Metric,
}

impl FaceComparisonInput {
    /// The request fits the private input channel's numeric ranges.
    pub open spec fn wf(&self) -> bool {
        &&& self.reference.wf()
        &&& self.attempt.wf()
        &&& -THRESHOLD_MAX <= self.threshold <= THRESHOLD_MAX
    }
}

/// The public outcome of one comparator run: the decision and the committed
/// score.  This is the only data that crosses the privacy boundary; the
/// descriptors never appear in it.
#[derive(Clone, Debug)]
pub struct MatchResult {
    pub is_match: bool,
    pub score: Option<i64>,
}

impl MatchResult {
    /// The score fits the public record's numeric range.
    pub open spec fn wf(&self) -> bool {
        match self.score {
            Some(s) => -THRESHOLD_MAX <= s <= THRESHOLD_MAX,
            None => true,
        }
    }
}

/// Identity of the exact comparator program a proof attests to: the digest
/// of the program image.  Fixed at build time, read-only thereafter.
#[derive(Clone, Copy, Debug, PartialEq, Eq, Structural)]
pub struct ProgramIdentity {
    pub id: u64,
}

/// An artifact binding a program identity to a public record, sealed by the
/// digest of both.  Produced by the proving backend, owned by the caller;
/// opaque apart from `verify` and its byte serialization.
#[derive(Clone, Debug)]
pub struct ProofArtifact {
    pub identity: u64,
    pub record: Vec<u8>,
    pub seal: u64,
}

impl ProofArtifact {
    /// The record fits the length prefix of the artifact's serialization.
    pub open spec fn wf(&self) -> bool {
        self.record@.len() <= 0xffff_ffff && self.record@.len() + 20 <= usize::MAX
    }
}

} // verus!
