//! Comparison metrics over fixed-point descriptors.
//!
//! Two metrics are supported, each with an explicit threshold direction:
//! squared Euclidean distance (match iff `distance <= threshold`, inclusive)
//! and cosine similarity (match iff `similarity >= threshold`, inclusive).
//! All arithmetic is exact: the cosine decision is taken by comparing
//! squares, so no square root or division is rounded on the decision path.

use vstd::prelude::*;
use vstd::arithmetic::div_mod::{lemma_div_is_ordered, lemma_div_multiples_vanish};
use crate::{DESCRIPTOR_LEN, MAX_COORD, SCALE, THRESHOLD_MAX};

verus! {

/// Dot product of two coordinate sequences (trailing coordinates of the
/// longer sequence are ignored; callers always pass equal lengths).
pub open spec fn dot(a: Seq<i64>, b: Seq<i64>) -> int
    decreases a.len(),
{
    if a.len() == 0 || b.len() == 0 {
        0
    } else {
        dot(a.drop_last(), b.drop_last()) + a.last() * b.last()
    }
}

/// Squared Euclidean norm of a coordinate sequence.
pub open spec fn norm_sq(a: Seq<i64>) -> int {
    dot(a, a)
}

/// Squared Euclidean distance between two coordinate sequences.
pub open spec fn dist_sq(a: Seq<i64>, b: Seq<i64>) -> int
    decreases a.len(),
{
    if a.len() == 0 || b.len() == 0 {
        0
    } else {
        dist_sq(a.drop_last(), b.drop_last())
            + (a.last() - b.last()) * (a.last() - b.last())
    }
}

/// Every coordinate of `a` has magnitude at most `m`.
pub open spec fn coords_bounded(a: Seq<i64>, m: int) -> bool {
    forall|i: int| 0 <= i < a.len() ==> -m <= #[trigger] a[i] <= m
}

proof fn lemma_dot_bounded(a: Seq<i64>, b: Seq<i64>, m: int)
    requires
        a.len() == b.len(),
        m >= 0,
        coords_bounded(a, m),
        coords_bounded(b, m),
    ensures
        -(a.len() * m * m) <= dot(a, b) <= a.len() * m * m,
    decreases a.len(),
{
    if a.len() > 0 {
        lemma_dot_bounded(a.drop_last(), b.drop_last(), m);
        let x = a.last();
        let y = b.last();
        assert(-(m * m) <= x * y <= m * m) by (nonlinear_arith)
            requires -m <= x <= m, -m <= y <= m, m >= 0;
        assert((a.len() - 1) * m * m + m * m == a.len() * m * m) by (nonlinear_arith);
    }
}

proof fn lemma_dist_sq_bounded(a: Seq<i64>, b: Seq<i64>, m: int)
    requires
        a.len() == b.len(),
        m >= 0,
        coords_bounded(a, m),
        coords_bounded(b, m),
    ensures
        0 <= dist_sq(a, b) <= a.len() * (4 * m * m),
    decreases a.len(),
{
    if a.len() > 0 {
        lemma_dist_sq_bounded(a.drop_last(), b.drop_last(), m);
        let d = a.last() - b.last();
        assert(0 <= d * d <= 4 * m * m) by (nonlinear_arith)
            requires -2 * m <= d <= 2 * m, m >= 0;
        assert((a.len() - 1) * (4 * m * m) + 4 * m * m == a.len() * (4 * m * m))
            by (nonlinear_arith);
    }
}

/// The squared norm of any coordinate sequence is non-negative.
pub proof fn lemma_norm_sq_nonneg(a: Seq<i64>)
    ensures
        norm_sq(a) >= 0,
    decreases a.len(),
{
    if a.len() > 0 {
        lemma_norm_sq_nonneg(a.drop_last());
        let x = a.last();
        assert(x * x >= 0) by (nonlinear_arith);
    }
}

/// The dot product is symmetric in its two arguments.
pub proof fn lemma_dot_symmetric(a: Seq<i64>, b: Seq<i64>)
    requires
        a.len() == b.len(),
    ensures
        dot(a, b) == dot(b, a),
    decreases a.len(),
{
    if a.len() > 0 {
        lemma_dot_symmetric(a.drop_last(), b.drop_last());
    }
}

/// The squared Euclidean distance is symmetric in its two arguments.
pub proof fn lemma_dist_sq_symmetric(a: Seq<i64>, b: Seq<i64>)
    requires
        a.len() == b.len(),
    ensures
        dist_sq(a, b) == dist_sq(b, a),
    decreases a.len(),
{
    if a.len() > 0 {
        lemma_dist_sq_symmetric(a.drop_last(), b.drop_last());
        let x = a.last();
        let y = b.last();
        assert((x - y) * (x - y) == (y - x) * (y - x)) by (nonlinear_arith);
    }
}

/// For non-negative `a`, `a * a >= b * b` forces `a >= b`.
proof fn lemma_sqrt_monotone(a: int, b: int)
    by (nonlinear_arith)
    requires
        a >= 0,
        a * a >= b * b,
    ensures
        a >= b,
{
}

/// Arithmetic-geometric mean inequality in squared form.
proof fn lemma_am_gm(u: int, v: int)
    by (nonlinear_arith)
    ensures
        (u + v) * (u + v) >= 4 * (u * v),
{
    assert((u - v) * (u - v) >= 0);
}

/// One induction step of the Cauchy-Schwarz inequality.
proof fn lemma_cauchy_schwarz_step(d: int, na: int, nb: int, x: int, y: int)
    requires
        d * d <= na * nb,
        na >= 0,
        nb >= 0,
    ensures
        (d + x * y) * (d + x * y) <= (na + x * x) * (nb + y * y),
{
    let u = na * (y * y);
    let v = nb * (x * x);
    let w = x * y;
    assert(u >= 0 && v >= 0) by (nonlinear_arith)
        requires na >= 0, nb >= 0, u == na * (y * y), v == nb * (x * x);
    lemma_am_gm(u, v);
    assert(u * v == (na * nb) * (w * w)) by (nonlinear_arith)
        requires u == na * (y * y), v == nb * (x * x), w == x * y;
    assert((na * nb) * (w * w) >= (d * d) * (w * w)) by (nonlinear_arith)
        requires d * d <= na * nb;
    assert((2 * (d * w)) * (2 * (d * w)) == 4 * ((d * d) * (w * w))) by (nonlinear_arith);
    lemma_sqrt_monotone(u + v, 2 * (d * w));
    assert((na + x * x) * (nb + y * y)
        == na * nb + na * (y * y) + nb * (x * x) + (x * x) * (y * y))
        by (nonlinear_arith);
    assert((d + x * y) * (d + x * y)
        == d * d + 2 * (d * (x * y)) + (x * x) * (y * y))
        by (nonlinear_arith);
    assert(2 * (d * (x * y)) == 2 * (d * w)) by (nonlinear_arith)
        requires w == x * y;
}

/// Cauchy-Schwarz: the square of the dot product never exceeds the product
/// of the squared norms.
pub proof fn lemma_cauchy_schwarz(a: Seq<i64>, b: Seq<i64>)
    requires
        a.len() == b.len(),
    ensures
        dot(a, b) * dot(a, b) <= norm_sq(a) * norm_sq(b),
    decreases a.len(),
{
    if a.len() == 0 {
    } else {
        let a0 = a.drop_last();
        let b0 = b.drop_last();
        lemma_cauchy_schwarz(a0, b0);
        lemma_norm_sq_nonneg(a0);
        lemma_norm_sq_nonneg(b0);
        lemma_cauchy_schwarz_step(
            dot(a0, b0), norm_sq(a0), norm_sq(b0), a.last() as int, b.last() as int);
    }
}

/// Match decision for the squared-Euclidean metric: inclusive on the boundary.
pub open spec fn distance_match(a: Seq<i64>, b: Seq<i64>, threshold: int) -> bool {
    dist_sq(a, b) <= threshold
}

/// Match decision for the cosine-similarity metric, inclusive on the boundary.
///
/// The threshold is fixed-point: the real threshold is `threshold / SCALE`.
/// When either norm is zero the similarity is defined as zero, so the match
/// holds exactly when the threshold is at most zero.  Otherwise the decision
/// is the exact algebraic form of `dot(a, b) / sqrt(norm_sq(a) * norm_sq(b))
/// >= threshold / SCALE`, obtained by squaring both sides with the signs
/// tracked, so that no real-valued square root is needed.
pub open spec fn cosine_match(a: Seq<i64>, b: Seq<i64>, threshold: int) -> bool {
    let na = norm_sq(a);
    let nb = norm_sq(b);
    let d = dot(a, b);
    if na == 0 || nb == 0 {
        0 >= threshold
    } else if threshold <= 0 {
        d >= 0 || (SCALE * SCALE) * (d * d) <= (threshold * threshold) * (na * nb)
    } else {
        d >= 0 && (SCALE * SCALE) * (d * d) >= (threshold * threshold) * (na * nb)
    }
}

/// Floor of the square root of a natural number.
pub open spec fn isqrt(n: nat) -> nat
    decreases n,
{
    if n == 0 {
        0
    } else {
        let r = isqrt((n - 1) as nat);
        if ((r as int) + 1) * ((r as int) + 1) <= n as int {
            r + 1
        } else {
            r
        }
    }
}

/// `isqrt(n)` is the unique natural number whose square is at most `n`
/// while the next square is beyond `n`.
pub proof fn lemma_isqrt_correct(n: nat)
    ensures
        (isqrt(n) as int) * (isqrt(n) as int) <= n as int,
        (n as int) < ((isqrt(n) as int) + 1) * ((isqrt(n) as int) + 1),
    decreases n,
{
    if n == 0 {
        assert(isqrt(n) == 0);
        assert((0int) * (0int) <= 0int) by (nonlinear_arith);
    } else {
        lemma_isqrt_correct((n - 1) as nat);
        let r = isqrt((n - 1) as nat) as int;
        assert(r >= 0);
        assert(r * r <= n - 1);
        if (r + 1) * (r + 1) <= n as int {
            assert(isqrt(n) == r + 1);
            assert((isqrt(n) as int) * (isqrt(n) as int) == (r + 1) * (r + 1));
            assert(n as int <= (r + 1) * (r + 1));
            assert((r + 1) * (r + 1) < (r + 2) * (r + 2)) by (nonlinear_arith)
                requires r >= 0;
        } else {
            assert(isqrt(n) == r);
            assert((isqrt(n) as int) * (isqrt(n) as int) == r * r);
        }
    }
}

/// Any natural number whose square is at most `n` is at most `isqrt(n)`.
pub proof fn lemma_isqrt_maximal(n: nat, k: int)
    requires
        k >= 0,
        k * k <= n as int,
    ensures
        k <= isqrt(n) as int,
{
    lemma_isqrt_correct(n);
    let r = isqrt(n) as int;
    if k > r {
        assert((r + 1) * (r + 1) <= k * k) by (nonlinear_arith)
            requires 0 <= r + 1 <= k;
    }
}

/// Committed similarity score, fixed-point with scale `SCALE`: the rounded
/// value of `SCALE * dot(a, b) / sqrt(norm_sq(a) * norm_sq(b))`, truncated
/// toward zero, and zero whenever either norm is zero.
pub open spec fn cosine_score(a: Seq<i64>, b: Seq<i64>) -> int {
    let na = norm_sq(a);
    let nb = norm_sq(b);
    let d = dot(a, b);
    if na == 0 || nb == 0 {
        0
    } else {
        let r = isqrt((na * nb) as nat) as int;
        if d >= 0 {
            (SCALE * d) / r
        } else {
            -((SCALE * -d) / r)
        }
    }
}

/// A product of two values is bounded by the product of their bounds.
proof fn lemma_abs_prod_bound(x: int, y: int, mx: int, my: int)
    by (nonlinear_arith)
    requires
        -mx <= x <= mx,
        -my <= y <= my,
        mx >= 0,
        my >= 0,
    ensures
        -(mx * my) <= x * y <= mx * my,
{
}

proof fn lemma_dot_take_step(a: Seq<i64>, b: Seq<i64>, i: int)
    requires
        a.len() == b.len(),
        0 <= i < a.len(),
    ensures
        dot(a.take(i + 1), b.take(i + 1)) == dot(a.take(i), b.take(i)) + a[i] * b[i],
{
    assert(a.take(i + 1).drop_last() =~= a.take(i));
    assert(b.take(i + 1).drop_last() =~= b.take(i));
}

proof fn lemma_dist_take_step(a: Seq<i64>, b: Seq<i64>, i: int)
    requires
        a.len() == b.len(),
        0 <= i < a.len(),
    ensures
        dist_sq(a.take(i + 1), b.take(i + 1))
            == dist_sq(a.take(i), b.take(i)) + (a[i] - b[i]) * (a[i] - b[i]),
{
    assert(a.take(i + 1).drop_last() =~= a.take(i));
    assert(b.take(i + 1).drop_last() =~= b.take(i));
}

proof fn lemma_dot_prefix_bounded(a: Seq<i64>, b: Seq<i64>, i: int, m: int)
    requires
        a.len() == b.len(),
        0 <= i <= a.len(),
        m >= 0,
        coords_bounded(a, m),
        coords_bounded(b, m),
    ensures
        -(i * m * m) <= dot(a.take(i), b.take(i)) <= i * m * m,
{
    assert(coords_bounded(a.take(i), m));
    assert(coords_bounded(b.take(i), m));
    lemma_dot_bounded(a.take(i), b.take(i), m);
}

proof fn lemma_dist_prefix_bounded(a: Seq<i64>, b: Seq<i64>, i: int, m: int)
    requires
        a.len() == b.len(),
        0 <= i <= a.len(),
        m >= 0,
        coords_bounded(a, m),
        coords_bounded(b, m),
    ensures
        0 <= dist_sq(a.take(i), b.take(i)) <= i * (4 * m * m),
{
    assert(coords_bounded(a.take(i), m));
    assert(coords_bounded(b.take(i), m));
    lemma_dist_sq_bounded(a.take(i), b.take(i), m);
}

/// One pass over two equal-length descriptors: their dot product and the two
/// squared norms, all exact.
pub fn accumulate(a: &Vec<i64>, b: &Vec<i64>) -> (r: (i64, i64, i64))
    requires
        a@.len() == b@.len(),
        a@.len() <= DESCRIPTOR_LEN,
        coords_bounded(a@, MAX_COORD as int),
        coords_bounded(b@, MAX_COORD as int),
    ensures
        r.0 == dot(a@, b@),
        r.1 == norm_sq(a@),
        r.2 == norm_sq(b@),
{
    let n = a.len();
    let mut d: i64 = 0;
    let mut na: i64 = 0;
    let mut nb: i64 = 0;
    let mut i: usize = 0;
    while i < n
        invariant
            n == a@.len(),
            a@.len() == b@.len(),
            a@.len() <= DESCRIPTOR_LEN,
            coords_bounded(a@, MAX_COORD as int),
            coords_bounded(b@, MAX_COORD as int),
            i <= n,
            d == dot(a@.take(i as int), b@.take(i as int)),
            na == dot(a@.take(i as int), a@.take(i as int)),
            nb == dot(b@.take(i as int), b@.take(i as int)),
        decreases n - i,
    {
        proof {
            let m: int = MAX_COORD as int;
            lemma_dot_prefix_bounded(a@, b@, i as int, m);
            lemma_dot_prefix_bounded(a@, a@, i as int, m);
            lemma_dot_prefix_bounded(b@, b@, i as int, m);
            lemma_abs_prod_bound(a@[i as int] as int, b@[i as int] as int, m, m);
            lemma_abs_prod_bound(a@[i as int] as int, a@[i as int] as int, m, m);
            lemma_abs_prod_bound(b@[i as int] as int, b@[i as int] as int, m, m);
            lemma_abs_prod_bound(i as int, m * m, DESCRIPTOR_LEN as int, m * m);
            lemma_dot_take_step(a@, b@, i as int);
            lemma_dot_take_step(a@, a@, i as int);
            lemma_dot_take_step(b@, b@, i as int);
        }
        d = d + a[i] * b[i];
        na = na + a[i] * a[i];
        nb = nb + b[i] * b[i];
        i = i + 1;
    }
    proof {
        assert(a@.take(n as int) =~= a@);
        assert(b@.take(n as int) =~= b@);
    }
    (d, na, nb)
}

/// Squared Euclidean distance of two equal-length descriptors, exact.
pub fn distance_squared(a: &Vec<i64>, b: &Vec<i64>) -> (r: i64)
    requires
        a@.len() == b@.len(),
        a@.len() <= DESCRIPTOR_LEN,
        coords_bounded(a@, MAX_COORD as int),
        coords_bounded(b@, MAX_COORD as int),
    ensures
        r == dist_sq(a@, b@),
        0 <= r <= THRESHOLD_MAX,
{
    let n = a.len();
    let mut acc: i64 = 0;
    let mut i: usize = 0;
    while i < n
        invariant
            n == a@.len(),
            a@.len() == b@.len(),
            a@.len() <= DESCRIPTOR_LEN,
            coords_bounded(a@, MAX_COORD as int),
            coords_bounded(b@, MAX_COORD as int),
            i <= n,
            acc == dist_sq(a@.take(i as int), b@.take(i as int)),
        decreases n - i,
    {
        proof {
            let m: int = MAX_COORD as int;
            lemma_dist_prefix_bounded(a@, b@, i as int, m);
            lemma_abs_prod_bound(
                a@[i as int] - b@[i as int], a@[i as int] - b@[i as int], 2 * m, 2 * m);
            lemma_abs_prod_bound(i as int, 4 * (m * m), DESCRIPTOR_LEN as int, 4 * (m * m));
            lemma_dist_take_step(a@, b@, i as int);
        }
        let diff: i64 = a[i] - b[i];
        acc = acc + diff * diff;
        i = i + 1;
    }
    proof {
        assert(a@.take(n as int) =~= a@);
        assert(b@.take(n as int) =~= b@);
        lemma_dist_prefix_bounded(a@, b@, n as int, 1_000_000int);
        assert(dist_sq(a@, b@) <= THRESHOLD_MAX) by (nonlinear_arith)
            requires
                dist_sq(a@, b@) <= (n as int) * (4int * (1_000_000int * 1_000_000int)),
                n as int <= 128,
                THRESHOLD_MAX == 2_000_000_000_000_000i64;
    }
    acc
}

/// Floor of the square root, by binary search.
pub fn isqrt_exec(n: u128) -> (r: u64)
    requires
        n < 0x40000000000000000000000000000000,
    ensures
        r as nat == isqrt(n as nat),
{
    let mut lo: u128 = 0;
    let mut hi: u128 = 0x8000000000000000;
    proof {
        assert((0x8000000000000000 as int) * (0x8000000000000000 as int)
            == 0x40000000000000000000000000000000) by (nonlinear_arith);
    }
    while hi - lo > 1
        invariant
            lo < hi,
            hi <= 0x8000000000000000,
            (lo as int) * (lo as int) <= n as int,
            (n as int) < (hi as int) * (hi as int),
        decreases hi - lo,
    {
        let mid: u128 = lo + (hi - lo) / 2;
        proof {
            lemma_abs_prod_bound(mid as int, mid as int,
                0x8000000000000000, 0x8000000000000000);
        }
        if mid * mid <= n {
            lo = mid;
        } else {
            hi = mid;
        }
    }
    proof {
        lemma_isqrt_correct(n as nat);
        let s = isqrt(n as nat) as int;
        lemma_isqrt_maximal(n as nat, lo as int);
        if s > lo as int {
            assert((lo as int + 1) * (lo as int + 1) <= s * s) by (nonlinear_arith)
                requires 0 <= lo as int + 1 <= s;
        }
    }
    lo as u64
}

/// Match decision and committed score for the squared-Euclidean metric.
/// The score is the exact squared distance.
pub fn distance_decision(a: &Vec<i64>, b: &Vec<i64>, threshold: i64) -> (r: (bool, i64))
    requires
        a@.len() == b@.len(),
        a@.len() <= DESCRIPTOR_LEN,
        coords_bounded(a@, MAX_COORD as int),
        coords_bounded(b@, MAX_COORD as int),
    ensures
        r.0 == distance_match(a@, b@, threshold as int),
        r.1 == dist_sq(a@, b@),
        0 <= r.1 <= THRESHOLD_MAX,
{
    let dist = distance_squared(a, b);
    (dist <= threshold, dist)
}

/// Cauchy-Schwarz above the scale: a threshold strictly above `SCALE` (a
/// similarity strictly above 1.0) can never be reached.
proof fn lemma_cs_above_scale(d: int, p: int, t: int, s: int)
    by (nonlinear_arith)
    requires
        d * d <= p,
        p >= 1,
        t > s,
        s > 0,
    ensures
        (s * s) * (d * d) < (t * t) * p,
{
}

/// Cauchy-Schwarz below the negated scale: a threshold strictly below
/// `-SCALE` (a similarity strictly below -1.0) is always cleared.
proof fn lemma_cs_below_neg_scale(d: int, p: int, t: int, s: int)
    by (nonlinear_arith)
    requires
        d * d <= p,
        p >= 1,
        t < -s,
        s > 0,
    ensures
        (s * s) * (d * d) < (t * t) * p,
{
}

/// Match decision and committed score for the cosine-similarity metric.
pub fn cosine_decision(a: &Vec<i64>, b: &Vec<i64>, threshold: i64) -> (r: (bool, i64))
    requires
        a@.len() == b@.len(),
        a@.len() <= DESCRIPTOR_LEN,
        coords_bounded(a@, MAX_COORD as int),
        coords_bounded(b@, MAX_COORD as int),
    ensures
        r.0 == cosine_match(a@, b@, threshold as int),
        r.1 == cosine_score(a@, b@),
        -SCALE <= r.1 <= SCALE,
{
    let (d, na, nb) = accumulate(a, b);
    proof {
        let m: int = MAX_COORD as int;
        lemma_dot_prefix_bounded(a@, b@, a@.len() as int, m);
        lemma_dot_prefix_bounded(a@, a@, a@.len() as int, m);
        lemma_dot_prefix_bounded(b@, b@, b@.len() as int, m);
        assert(a@.take(a@.len() as int) =~= a@);
        assert(b@.take(b@.len() as int) =~= b@);
        lemma_norm_sq_nonneg(a@);
        lemma_norm_sq_nonneg(b@);
        lemma_abs_prod_bound(a@.len() as int, m * m, DESCRIPTOR_LEN as int, m * m);
    }
    if na == 0 || nb == 0 {
        return (threshold <= 0, 0);
    }
    // Both norms are positive: at most 128 * MAX_COORD^2 each.
    let ghost nmax: int = 128int * (1_000_000int * 1_000_000int);
    proof {
        lemma_abs_prod_bound(na as int, nb as int, nmax, nmax);
        assert(na as int * nb as int >= 1) by (nonlinear_arith)
            requires na as int >= 1, nb as int >= 1;
    }
    let p: u128 = (na as u128) * (nb as u128);
    let rt: u64 = isqrt_exec(p);
    let dm: u64 = if d >= 0 { d as u64 } else { (-d) as u64 };
    proof {
        lemma_isqrt_correct(p as nat);
        lemma_isqrt_maximal(p as nat, 1);
        lemma_cauchy_schwarz(a@, b@);
        assert((dm as int) * (dm as int) <= (na as int) * (nb as int))
            by (nonlinear_arith)
            requires
                (d as int) * (d as int) <= (na as int) * (nb as int),
                dm as int == d as int || dm as int == -(d as int);
        lemma_isqrt_maximal(p as nat, dm as int);
        lemma_abs_prod_bound(SCALE as int, dm as int, SCALE as int, rt as int);
    }
    let num: u128 = (SCALE as u128) * (dm as u128);
    let q: u128 = num / (rt as u128);
    proof {
        assert(SCALE as int * dm as int <= SCALE as int * rt as int) by (nonlinear_arith)
            requires dm as int <= rt as int, SCALE as int > 0;
        lemma_div_is_ordered(num as int, SCALE as int * rt as int, rt as int);
        lemma_div_multiples_vanish(SCALE as int, rt as int);
        assert(rt as int * SCALE as int == SCALE as int * rt as int) by (nonlinear_arith);
    }
    let score: i64 = if d >= 0 { q as i64 } else { -(q as i64) };
    let is_match: bool;
    if threshold > SCALE {
        proof {
            lemma_cs_above_scale(
                d as int, na as int * nb as int, threshold as int, SCALE as int);
        }
        is_match = false;
    } else if threshold < -SCALE {
        proof {
            lemma_cs_below_neg_scale(
                d as int, na as int * nb as int, threshold as int, SCALE as int);
        }
        is_match = true;
    } else {
        proof {
            lemma_abs_prod_bound(d as int, d as int, nmax, nmax);
            lemma_abs_prod_bound(
                SCALE as int * SCALE as int, (d as int) * (d as int),
                1_000_000int, nmax * nmax);
            lemma_abs_prod_bound(threshold as int, threshold as int,
                SCALE as int, SCALE as int);
            lemma_abs_prod_bound(
                (threshold as int) * (threshold as int), (na as int) * (nb as int),
                1_000_000int, nmax * nmax);
        }
        let dd: i128 = (d as i128) * (d as i128);
        let s2: i128 = (SCALE as i128) * (SCALE as i128);
        let lhs: i128 = s2 * dd;
        let t2: i128 = (threshold as i128) * (threshold as i128);
        let pn: i128 = (na as i128) * (nb as i128);
        let rhs: i128 = t2 * pn;
        is_match = if threshold <= 0 {
            d >= 0 || lhs <= rhs
        } else {
            d >= 0 && lhs >= rhs
        };
    }
    (is_match, score)
}

/// A perfect square has itself as integer square root.
proof fn lemma_isqrt_square(n: int)
    requires
        n >= 0,
    ensures
        isqrt((n * n) as nat) as int == n,
{
    assert(n * n >= 0) by (nonlinear_arith);
    lemma_isqrt_correct((n * n) as nat);
    lemma_isqrt_maximal((n * n) as nat, n);
    let r = isqrt((n * n) as nat) as int;
    if r > n {
        assert((n + 1) * (n + 1) <= r * r) by (nonlinear_arith)
            requires 0 <= n + 1 <= r;
        assert(n * n < (n + 1) * (n + 1)) by (nonlinear_arith)
            requires n >= 0;
    }
}

proof fn lemma_dist_sq_self(a: Seq<i64>)
    ensures
        dist_sq(a, a) == 0,
    decreases a.len(),
{
    if a.len() > 0 {
        lemma_dist_sq_self(a.drop_last());
        let x = a.last();
        assert((x - x) * (x - x) == 0) by (nonlinear_arith);
    }
}

/// Comparing a descriptor against itself: the squared distance is zero, so
/// every non-negative distance threshold matches; and, unless the descriptor
/// has zero norm, the similarity is exactly 1.0 (the score is `SCALE`), so
/// every threshold of at most `SCALE` matches.
pub proof fn lemma_self_comparison(d: Seq<i64>)
    ensures
        dist_sq(d, d) == 0,
        forall|t: int| t >= 0 ==> #[trigger] distance_match(d, d, t),
        norm_sq(d) != 0 ==> cosine_score(d, d) == SCALE,
        forall|t: int| norm_sq(d) != 0 && t <= SCALE ==> #[trigger] cosine_match(d, d, t),
{
    lemma_dist_sq_self(d);
    lemma_norm_sq_nonneg(d);
    if norm_sq(d) != 0 {
        let n = norm_sq(d);
        lemma_isqrt_square(n);
        lemma_div_multiples_vanish(SCALE as int, n);
        assert(n * (SCALE as int) == SCALE as int * n) by (nonlinear_arith);
        assert(n >= 1);
        assert(cosine_score(d, d) == SCALE);
        assert forall|t: int| t <= SCALE implies #[trigger] cosine_match(d, d, t) by {
            if t > 0 {
                assert((SCALE as int * SCALE as int) * (n * n) >= (t * t) * (n * n))
                    by (nonlinear_arith)
                    requires 0 < t <= SCALE as int, SCALE as int > 0;
            }
        }
    }
}

/// Both metrics are symmetric: swapping the two descriptors changes neither
/// the metric value, nor the committed score, nor the match decision.
pub proof fn lemma_metric_symmetry(a: Seq<i64>, b: Seq<i64>)
    requires
        a.len() == b.len(),
    ensures
        dist_sq(a, b) == dist_sq(b, a),
        dot(a, b) == dot(b, a),
        cosine_score(a, b) == cosine_score(b, a),
        forall|t: int| #[trigger] distance_match(a, b, t) == distance_match(b, a, t),
        forall|t: int| #[trigger] cosine_match(a, b, t) == cosine_match(b, a, t),
{
    lemma_dist_sq_symmetric(a, b);
    lemma_dot_symmetric(a, b);
    assert(norm_sq(a) * norm_sq(b) == norm_sq(b) * norm_sq(a)) by (nonlinear_arith);
}

/// The distance threshold is inclusive: a distance exactly equal to the
/// threshold is a match.
pub proof fn lemma_distance_boundary(a: Seq<i64>, b: Seq<i64>, t: int)
    requires
        dist_sq(a, b) == t,
    ensures
        distance_match(a, b, t),
{
}

/// The similarity threshold is inclusive: when the similarity equals the
/// threshold exactly -- both non-negative, stated in the squared form used by
/// `cosine_match` -- the comparison is a match.
pub proof fn lemma_cosine_boundary(a: Seq<i64>, b: Seq<i64>, t: int)
    requires
        norm_sq(a) != 0,
        norm_sq(b) != 0,
        dot(a, b) >= 0,
        t >= 0,
        (SCALE * SCALE) * (dot(a, b) * dot(a, b))
            == (t * t) * (norm_sq(a) * norm_sq(b)),
    ensures
        cosine_match(a, b, t),
{
    lemma_norm_sq_nonneg(a);
    lemma_norm_sq_nonneg(b);
}

/// The similarity threshold is inclusive on the negative side as well: when
/// the similarity and the threshold are both non-positive and equal exactly,
/// the comparison is a match.
pub proof fn lemma_cosine_boundary_negative(a: Seq<i64>, b: Seq<i64>, t: int)
    requires
        norm_sq(a) != 0,
        norm_sq(b) != 0,
        dot(a, b) <= 0,
        t <= 0,
        (SCALE * SCALE) * (dot(a, b) * dot(a, b))
            == (t * t) * (norm_sq(a) * norm_sq(b)),
    ensures
        cosine_match(a, b, t),
{
}

/// Zero-norm rule: when either descriptor has zero norm the similarity is
/// defined as zero, so the score is zero and the decision compares the
/// threshold against zero.
pub proof fn lemma_zero_norm_similarity(a: Seq<i64>, b: Seq<i64>, t: int)
    requires
        norm_sq(a) == 0 || norm_sq(b) == 0,
    ensures
        cosine_score(a, b) == 0,
        cosine_match(a, b, t) == (0 >= t),
{
}

/// An all-zero descriptor has zero norm.
pub proof fn lemma_all_zero_norm(a: Seq<i64>)
    requires
        forall|i: int| 0 <= i < a.len() ==> a[i] == 0,
    ensures
        norm_sq(a) == 0,
    decreases a.len(),
{
    if a.len() > 0 {
        lemma_all_zero_norm(a.drop_last());
        let x = a.last();
        assert(x * x == 0) by (nonlinear_arith)
            requires x == 0;
    }
}

} // verus!
