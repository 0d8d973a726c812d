//! A 64-bit running digest over byte strings.
//!
//! The digest seals proof artifacts: it binds a public record to the program
//! identity it came from, and any change to a single byte of the sealed data
//! provably changes the digest.  The fold multiplies by an odd constant after
//! folding in each byte; because the multiplier is invertible modulo `2^64`,
//! every step is a bijection of the running state, which is what the
//! tamper-evidence proofs below rest on.

use vstd::prelude::*;
use vstd::arithmetic::div_mod::{lemma_mul_mod_noop_left, lemma_mul_mod_noop_right, lemma_small_mod};
use vstd::arithmetic::mul::lemma_mul_is_associative;

verus! {

/// Initial digest state.
pub const DIGEST_INIT: u64 = 0xcbf29ce484222325;

/// Odd multiplier folded in after each byte; invertible modulo `2^64`.
pub const DIGEST_PRIME: u64 = 0x100000001b3;

/// Multiplicative inverse of `DIGEST_PRIME` modulo `2^64`.
pub const DIGEST_PRIME_INV: u64 = 0xce965057aff6957b;

/// Modulus of the 64-bit state.
pub open spec fn digest_mod() -> int {
    0x10000000000000000
}

/// One digest step: fold one byte into the state.
pub open spec fn digest_step(s: u64, b: u8) -> u64 {
    ((((s ^ (b as u64)) as int) * (DIGEST_PRIME as int) % digest_mod()) as u64)
}

/// Digest of a byte string, folded left to right from state `s`.
pub open spec fn digest_seq(s: u64, bytes: Seq<u8>) -> u64
    decreases bytes.len(),
{
    if bytes.len() == 0 {
        s
    } else {
        digest_step(digest_seq(s, bytes.drop_last()), bytes.last())
    }
}

/// Digest of a byte string from the fixed initial state.
pub open spec fn digest_of(bytes: Seq<u8>) -> u64 {
    digest_seq(DIGEST_INIT, bytes)
}

/// Computes `digest_of` over the bytes of a vector.
pub fn digest_bytes(bytes: &Vec<u8>) -> (r: u64)
    ensures
        r == digest_of(bytes@),
{
    let mut s: u64 = DIGEST_INIT;
    let mut i: usize = 0;
    while i < bytes.len()
        invariant
            i <= bytes@.len(),
            s == digest_seq(DIGEST_INIT, bytes@.take(i as int)),
        decreases bytes@.len() - i,
    {
        let x: u64 = s ^ (bytes[i] as u64);
        let prod: u128 = (x as u128) * (DIGEST_PRIME as u128);
        let next: u64 = (prod % 0x10000000000000000u128) as u64;
        proof {
            assert(bytes@.take(i as int + 1).drop_last() =~= bytes@.take(i as int));
            assert(bytes@.take(i as int + 1).last() == bytes@[i as int]);
        }
        s = next;
        i = i + 1;
    }
    proof {
        assert(bytes@.take(bytes@.len() as int) =~= bytes@);
    }
    s
}

/// Multiplication by `DIGEST_PRIME` modulo `2^64` is injective, because
/// `DIGEST_PRIME_INV` undoes it.
proof fn lemma_mul_prime_injective(x: int, y: int)
    requires
        0 <= x < digest_mod(),
        0 <= y < digest_mod(),
        x * (DIGEST_PRIME as int) % digest_mod() == y * (DIGEST_PRIME as int) % digest_mod(),
    ensures
        x == y,
{
    let p = DIGEST_PRIME as int;
    let q = DIGEST_PRIME_INV as int;
    let m = digest_mod();
    assert((p * q) % m == 1);
    lemma_mul_mod_noop_left(x * p, q, m);
    lemma_mul_mod_noop_left(y * p, q, m);
    lemma_mul_is_associative(x, p, q);
    lemma_mul_is_associative(y, p, q);
    lemma_mul_mod_noop_right(x, p * q, m);
    lemma_mul_mod_noop_right(y, p * q, m);
    lemma_small_mod(x as nat, m as nat);
    lemma_small_mod(y as nat, m as nat);
    assert(x * ((p * q) % m) == x) by (nonlinear_arith)
        requires (p * q) % m == 1;
    assert(y * ((p * q) % m) == y) by (nonlinear_arith)
        requires (p * q) % m == 1;
}

/// A digest step from two different states gives two different states.
proof fn lemma_step_injective_state(s1: u64, s2: u64, b: u8)
    requires
        s1 != s2,
    ensures
        digest_step(s1, b) != digest_step(s2, b),
{
    let x1 = s1 ^ (b as u64);
    let x2 = s2 ^ (b as u64);
    assert(x1 != x2) by (bit_vector)
        requires s1 != s2, x1 == s1 ^ (b as u64), x2 == s2 ^ (b as u64);
    if digest_step(s1, b) == digest_step(s2, b) {
        lemma_mul_prime_injective(x1 as int, x2 as int);
    }
}

/// A digest step folding two different bytes into one state gives two
/// different states.
proof fn lemma_step_injective_byte(s: u64, b1: u8, b2: u8)
    requires
        b1 != b2,
    ensures
        digest_step(s, b1) != digest_step(s, b2),
{
    let x1 = s ^ (b1 as u64);
    let x2 = s ^ (b2 as u64);
    assert(x1 != x2) by (bit_vector)
        requires b1 != b2, x1 == s ^ (b1 as u64), x2 == s ^ (b2 as u64);
    if digest_step(s, b1) == digest_step(s, b2) {
        lemma_mul_prime_injective(x1 as int, x2 as int);
    }
}

/// Digests from two different states over the same byte string stay apart.
proof fn lemma_digest_state_injective(s1: u64, s2: u64, t: Seq<u8>)
    requires
        s1 != s2,
    ensures
        digest_seq(s1, t) != digest_seq(s2, t),
    decreases t.len(),
{
    if t.len() > 0 {
        lemma_digest_state_injective(s1, s2, t.drop_last());
        lemma_step_injective_state(
            digest_seq(s1, t.drop_last()), digest_seq(s2, t.drop_last()), t.last());
    }
}

proof fn lemma_digest_flip_rec(s: u64, a: Seq<u8>, b: Seq<u8>, k: int)
    requires
        a.len() == b.len(),
        0 <= k < a.len(),
        a[k] != b[k],
        forall|i: int| 0 <= i < a.len() && i != k ==> a[i] == b[i],
    ensures
        digest_seq(s, a) != digest_seq(s, b),
    decreases a.len(),
{
    if k == a.len() - 1 {
        assert(a.drop_last() =~= b.drop_last());
        lemma_step_injective_byte(digest_seq(s, a.drop_last()), a[k], b[k]);
    } else {
        lemma_digest_flip_rec(s, a.drop_last(), b.drop_last(), k);
        lemma_step_injective_state(
            digest_seq(s, a.drop_last()), digest_seq(s, b.drop_last()), a.last());
    }
}

/// Tamper evidence: two byte strings of equal length that differ in exactly
/// one byte have different digests.
pub proof fn lemma_digest_byte_flip(a: Seq<u8>, b: Seq<u8>, k: int)
    requires
        a.len() == b.len(),
        0 <= k < a.len(),
        a[k] != b[k],
        forall|i: int| 0 <= i < a.len() && i != k ==> a[i] == b[i],
    ensures
        digest_of(a) != digest_of(b),
{
    lemma_digest_flip_rec(DIGEST_INIT, a, b, k);
}

} // verus!
