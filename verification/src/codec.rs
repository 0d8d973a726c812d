//! Byte serialization of the public record and of proof artifacts.
//!
//! Both layouts are little-endian and fixed: a record is ten bytes (decision
//! tag, score tag, offset-encoded score), an artifact is its identity, seal
//! and length-prefixed record.  Decoding validates every field and never
//! coerces malformed bytes into a default value.

use vstd::prelude::*;
use crate::model::{MatchResult, ProofArtifact};
use crate::THRESHOLD_MAX;

verus! {

/// Little-endian bytes of a 64-bit value.
pub open spec fn u64_le(x: u64) -> Seq<u8> {
    seq![
        (x & 0xff) as u8,
        ((x >> 8) & 0xff) as u8,
        ((x >> 16) & 0xff) as u8,
        ((x >> 24) & 0xff) as u8,
        ((x >> 32) & 0xff) as u8,
        ((x >> 40) & 0xff) as u8,
        ((x >> 48) & 0xff) as u8,
        ((x >> 56) & 0xff) as u8,
    ]
}

/// The 64-bit value read from eight little-endian bytes.
pub open spec fn u64_from_le(s: Seq<u8>) -> u64 {
    (s[0] as u64) | ((s[1] as u64) << 8) | ((s[2] as u64) << 16) | ((s[3] as u64) << 24)
        | ((s[4] as u64) << 32) | ((s[5] as u64) << 40) | ((s[6] as u64) << 48)
        | ((s[7] as u64) << 56)
}

/// Little-endian bytes of a 32-bit value.
pub open spec fn u32_le(x: u32) -> Seq<u8> {
    seq![
        (x & 0xff) as u8,
        ((x >> 8) & 0xff) as u8,
        ((x >> 16) & 0xff) as u8,
        ((x >> 24) & 0xff) as u8,
    ]
}

/// The 32-bit value read from four little-endian bytes.
pub open spec fn u32_from_le(s: Seq<u8>) -> u32 {
    (s[0] as u32) | ((s[1] as u32) << 8) | ((s[2] as u32) << 16) | ((s[3] as u32) << 24)
}

/// Reading back the eight bytes of a 64-bit value gives the value.
pub proof fn lemma_u64_round_trip(x: u64)
    ensures
        u64_from_le(u64_le(x)) == x,
{
    assert(((x & 0xff) as u8 as u64)
        | ((((x >> 8) & 0xff) as u8 as u64) << 8)
        | ((((x >> 16) & 0xff) as u8 as u64) << 16)
        | ((((x >> 24) & 0xff) as u8 as u64) << 24)
        | ((((x >> 32) & 0xff) as u8 as u64) << 32)
        | ((((x >> 40) & 0xff) as u8 as u64) << 40)
        | ((((x >> 48) & 0xff) as u8 as u64) << 48)
        | ((((x >> 56) & 0xff) as u8 as u64) << 56) == x) by (bit_vector);
}

/// Reading back the four bytes of a 32-bit value gives the value.
pub proof fn lemma_u32_round_trip(x: u32)
    ensures
        u32_from_le(u32_le(x)) == x,
{
    assert(((x & 0xff) as u8 as u32)
        | ((((x >> 8) & 0xff) as u8 as u32) << 8)
        | ((((x >> 16) & 0xff) as u8 as u32) << 16)
        | ((((x >> 24) & 0xff) as u8 as u32) << 24) == x) by (bit_vector);
}

/// Appends the eight little-endian bytes of `x`.
pub fn push_u64_le(out: &mut Vec<u8>, x: u64)
    ensures
        final(out)@ == old(out)@ + u64_le(x),
{
    out.push((x & 0xff) as u8);
    out.push(((x >> 8) & 0xff) as u8);
    out.push(((x >> 16) & 0xff) as u8);
    out.push(((x >> 24) & 0xff) as u8);
    out.push(((x >> 32) & 0xff) as u8);
    out.push(((x >> 40) & 0xff) as u8);
    out.push(((x >> 48) & 0xff) as u8);
    out.push(((x >> 56) & 0xff) as u8);
    proof {
        assert(out@ =~= old(out)@ + u64_le(x));
    }
}

/// Appends the four little-endian bytes of `x`.
pub fn push_u32_le(out: &mut Vec<u8>, x: u32)
    ensures
        final(out)@ == old(out)@ + u32_le(x),
{
    out.push((x & 0xff) as u8);
    out.push(((x >> 8) & 0xff) as u8);
    out.push(((x >> 16) & 0xff) as u8);
    out.push(((x >> 24) & 0xff) as u8);
    proof {
        assert(out@ =~= old(out)@ + u32_le(x));
    }
}

/// Reads a 64-bit value from eight little-endian bytes at `off`.
pub fn read_u64_le(b: &Vec<u8>, off: usize) -> (r: u64)
    requires
        off + 8 <= b@.len(),
    ensures
        r == u64_from_le(b@.subrange(off as int, off as int + 8)),
{
    let blen: usize = b.len();
    (b[off] as u64)
        | ((b[off + 1] as u64) << 8)
        | ((b[off + 2] as u64) << 16)
        | ((b[off + 3] as u64) << 24)
        | ((b[off + 4] as u64) << 32)
        | ((b[off + 5] as u64) << 40)
        | ((b[off + 6] as u64) << 48)
        | ((b[off + 7] as u64) << 56)
}

/// Reads a 32-bit value from four little-endian bytes at `off`.
pub fn read_u32_le(b: &Vec<u8>, off: usize) -> (r: u32)
    requires
        off + 4 <= b@.len(),
    ensures
        r == u32_from_le(b@.subrange(off as int, off as int + 4)),
{
    let blen: usize = b.len();
    (b[off] as u32)
        | ((b[off + 1] as u32) << 8)
        | ((b[off + 2] as u32) << 16)
        | ((b[off + 3] as u32) << 24)
}

/// Tag byte of a decision.
pub open spec fn bool_byte(b: bool) -> u8 {
    if b { 1 } else { 0 }
}

/// The ten public-record bytes of a match result.  A score is carried offset
/// by `THRESHOLD_MAX` so the field is unsigned; an absent score is a zero
/// field under tag zero.
pub open spec fn record_bytes(m: MatchResult) -> Seq<u8> {
    match m.score {
        Some(s) => seq![bool_byte(m.is_match), 1u8]
            + u64_le((s + THRESHOLD_MAX) as u64),
        None => seq![bool_byte(m.is_match), 0u8] + u64_le(0u64),
    }
}

/// Parses public-record bytes; `None` unless the bytes are exactly the
/// canonical encoding of one match result.
pub open spec fn parse_record(b: Seq<u8>) -> Option<MatchResult> {
    if b.len() != 10 {
        None
    } else if (b[0] != 0 && b[0] != 1) || (b[1] != 0 && b[1] != 1) {
        None
    } else {
        let senc = u64_from_le(b.subrange(2, 10));
        if b[1] == 1 {
            if senc <= 2 * (THRESHOLD_MAX as u64) {
                Some(MatchResult {
                    is_match: b[0] == 1,
                    score: Some((senc - THRESHOLD_MAX as u64) as i64),
                })
            } else {
                None
            }
        } else {
            if senc == 0 {
                Some(MatchResult { is_match: b[0] == 1, score: None })
            } else {
                None
            }
        }
    }
}

/// A well-formed match result round-trips through its record bytes.
pub proof fn lemma_record_round_trip(m: MatchResult)
    requires
        m.wf(),
    ensures
        parse_record(record_bytes(m)) == Some(m),
{
    let b = record_bytes(m);
    match m.score {
        Some(s) => {
            let enc = (s + THRESHOLD_MAX) as u64;
            assert(b.subrange(2, 10) =~= u64_le(enc));
            lemma_u64_round_trip(enc);
        },
        None => {
            assert(b.subrange(2, 10) =~= u64_le(0u64));
            lemma_u64_round_trip(0u64);
            assert(u64_from_le(b.subrange(2, 10)) == 0);
        },
    }
}

/// Encodes a match result as its public-record bytes.
pub fn encode_record(m: &MatchResult) -> (r: Vec<u8>)
    requires
        m.wf(),
    ensures
        r@ == record_bytes(*m),
{
    let mut out: Vec<u8> = Vec::new();
    out.push(if m.is_match { 1 } else { 0 });
    match m.score {
        Some(s) => {
            out.push(1);
            push_u64_le(&mut out, ((s + THRESHOLD_MAX) as u64));
        },
        None => {
            out.push(0);
            push_u64_le(&mut out, 0);
        },
    }
    proof {
        assert(out@ =~= record_bytes(*m));
    }
    out
}

/// Why public-record or artifact bytes were rejected.
#[derive(Clone, Copy, Debug, PartialEq, Eq)]
pub enum DecodingError {
    /// The byte string has the wrong length for its layout.
    WrongLength,
    /// A tag byte holds a value outside its alphabet.
    InvalidTag,
    /// A numeric field is outside its documented range.
    FieldOutOfRange,
}

/// Decodes public-record bytes, exactly the inverse of `record_bytes`.
pub fn decode_record(b: &Vec<u8>) -> (r: Result<MatchResult, DecodingError>)
    ensures
        match r {
            Ok(m) => parse_record(b@) == Some(m) && m.wf(),
            Err(_) => parse_record(b@) is None,
        },
{
    if b.len() != 10 {
        return Err(DecodingError::WrongLength);
    }
    let t0 = b[0];
    let t1 = b[1];
    if (t0 != 0 && t0 != 1) || (t1 != 0 && t1 != 1) {
        return Err(DecodingError::InvalidTag);
    }
    let senc = read_u64_le(b, 2);
    if t1 == 1 {
        if senc <= 2 * (THRESHOLD_MAX as u64) {
            Ok(MatchResult {
                is_match: t0 == 1,
                score: Some((senc as i64) - THRESHOLD_MAX),
            })
        } else {
            Err(DecodingError::FieldOutOfRange)
        }
    } else {
        if senc == 0 {
            Ok(MatchResult { is_match: t0 == 1, score: None })
        } else {
            Err(DecodingError::FieldOutOfRange)
        }
    }
}

/// The serialized form of an artifact: identity, seal, then the
/// length-prefixed record.
pub open spec fn artifact_bytes(a: ProofArtifact) -> Seq<u8> {
    u64_le(a.identity) + u64_le(a.seal) + u32_le(a.record@.len() as u32) + a.record@
}

/// Parses artifact bytes; `None` unless they are exactly the serialization
/// of one artifact.
pub open spec fn parse_artifact(b: Seq<u8>) -> Option<(u64, u64, Seq<u8>)> {
    if b.len() < 20 {
        None
    } else {
        let id = u64_from_le(b.subrange(0, 8));
        let seal = u64_from_le(b.subrange(8, 16));
        let n = u32_from_le(b.subrange(16, 20));
        if b.len() == 20 + n {
            Some((id, seal, b.subrange(20, 20 + n)))
        } else {
            None
        }
    }
}

/// A well-formed artifact round-trips through its bytes.
pub proof fn lemma_artifact_round_trip(a: ProofArtifact)
    requires
        a.wf(),
    ensures
        parse_artifact(artifact_bytes(a)) == Some((a.identity, a.seal, a.record@)),
{
    let b = artifact_bytes(a);
    assert(b.subrange(0, 8) =~= u64_le(a.identity));
    assert(b.subrange(8, 16) =~= u64_le(a.seal));
    assert(b.subrange(16, 20) =~= u32_le(a.record@.len() as u32));
    lemma_u64_round_trip(a.identity);
    lemma_u64_round_trip(a.seal);
    lemma_u32_round_trip(a.record@.len() as u32);
    assert(b.subrange(20, 20 + a.record@.len() as int) =~= a.record@);
}

/// Serializes an artifact.
pub fn artifact_to_bytes(a: &ProofArtifact) -> (r: Vec<u8>)
    requires
        a.wf(),
    ensures
        r@ == artifact_bytes(*a),
{
    let mut out: Vec<u8> = Vec::new();
    push_u64_le(&mut out, a.identity);
    push_u64_le(&mut out, a.seal);
    push_u32_le(&mut out, a.record.len() as u32);
    let mut i: usize = 0;
    while i < a.record.len()
        invariant
            i <= a.record@.len(),
            a.record@.len() + 20 <= usize::MAX,
            out@ == u64_le(a.identity) + u64_le(a.seal)
                + u32_le(a.record@.len() as u32) + a.record@.take(i as int),
        decreases a.record@.len() - i,
    {
        let byte = a.record[i];
        out.push(byte);
        proof {
            assert(a.record@.take(i as int + 1) =~= a.record@.take(i as int) + seq![byte]);
            assert(out@ =~= u64_le(a.identity) + u64_le(a.seal)
                + u32_le(a.record@.len() as u32) + a.record@.take(i as int + 1));
        }
        i = i + 1;
    }
    proof {
        assert(a.record@.take(a.record@.len() as int) =~= a.record@);
    }
    out
}

/// Deserializes an artifact, exactly the inverse of `artifact_to_bytes`.
pub fn artifact_from_bytes(b: &Vec<u8>) -> (r: Result<ProofArtifact, DecodingError>)
    ensures
        match r {
            Ok(a) => parse_artifact(b@) == Some((a.identity, a.seal, a.record@)) && a.wf(),
            Err(_) => parse_artifact(b@) is None,
        },
{
    if b.len() < 20 {
        return Err(DecodingError::WrongLength);
    }
    let id = read_u64_le(b, 0);
    let seal = read_u64_le(b, 8);
    let n = read_u32_le(b, 16);
    if b.len() - 20 != (n as usize) {
        return Err(DecodingError::WrongLength);
    }
    let mut record: Vec<u8> = Vec::new();
    let mut i: usize = 0;
    while i < (n as usize)
        invariant
            b@.len() == 20 + n as int,
            b@.len() <= usize::MAX,
            i <= n,
            record@ == b@.subrange(20, 20 + i as int),
        decreases n as int - i,
    {
        record.push(b[20 + i]);
        proof {
            assert(b@.subrange(20, 20 + i as int + 1)
                =~= b@.subrange(20, 20 + i as int) + seq![b@[20 + i as int]]);
        }
        i = i + 1;
    }
    Ok(ProofArtifact { identity: id, record, seal })
}

} // verus!
