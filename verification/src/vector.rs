//! Fixed-point embedding vectors and cosine similarity.
//!
//! A coordinate is an `i64` counting millionths (see [`crate::SCALE`]).
//! The similarity of two vectors is their dot product divided by the
//! product of their Euclidean norms, itself returned in millionths, so
//! two identical vectors score close to `SCALE`.  Norms are rounded
//! down to whole integers; a vector of zero norm scores `0` against
//! anything rather than poisoning the ordering.

use vstd::prelude::*;

use crate::{MAX_COORD, MAX_DIM, SCALE};
use vstd::arithmetic::div_mod::{
    lemma_div_by_multiple, lemma_div_denominator, lemma_div_is_ordered, lemma_multiply_divide_lt,
};

verus! {

/// Every coordinate of `s` lies in `[-m, m]`.
pub open spec fn bounded(s: Seq<i64>, m: int) -> bool {
    forall|i: int| 0 <= i < s.len() ==> -m <= #[trigger] s[i] <= m
}

/// An embedding the pipeline accepts: small enough that every
/// intermediate product below fits its machine integer.
pub open spec fn valid_embedding(s: Seq<i64>) -> bool {
    s.len() <= MAX_DIM && bounded(s, MAX_COORD as int)
}

/// Mathematical dot product of two coordinate sequences, paired from
/// the back; callers align their lengths, which makes the pairing
/// positional.
pub open spec fn dot_s(a: Seq<i64>, b: Seq<i64>) -> int
    decreases a.len(),
{
    if a.len() == 0 || b.len() == 0 {
        0
    } else {
        dot_s(a.drop_last(), b.drop_last()) + a.last() * b.last()
    }
}

pub proof fn lemma_dot_symmetric(a: Seq<i64>, b: Seq<i64>)
    ensures
        dot_s(a, b) == dot_s(b, a),
    decreases a.len(),
{
    if a.len() != 0 && b.len() != 0 {
        lemma_dot_symmetric(a.drop_last(), b.drop_last());
    }
}

pub proof fn lemma_dot_self_nonneg(a: Seq<i64>)
    ensures
        dot_s(a, a) >= 0,
    decreases a.len(),
{
    if a.len() != 0 {
        lemma_dot_self_nonneg(a.drop_last());
        assert(a.last() * a.last() >= 0) by (nonlinear_arith);
    }
}

pub proof fn lemma_dot_bound(a: Seq<i64>, b: Seq<i64>, m: int)
    requires
        a.len() == b.len(),
        m >= 0,
        bounded(a, m),
        bounded(b, m),
    ensures
        -(a.len() * m * m) <= dot_s(a, b) <= a.len() * m * m,
    decreases a.len(),
{
    if a.len() != 0 {
        assert(bounded(a.drop_last(), m));
        assert(bounded(b.drop_last(), m));
        lemma_dot_bound(a.drop_last(), b.drop_last(), m);
        assert(-(m * m) <= a.last() * b.last() <= m * m) by (nonlinear_arith)
            requires
                -m <= a.last() <= m,
                -m <= b.last() <= m,
                m >= 0,
        ;
        assert((a.len() - 1) * m * m + m * m == a.len() * m * m) by (nonlinear_arith);
    }
}

/// The floor of the square root of `n`.
pub open spec fn sqrt_floor(n: nat) -> nat
    decreases n,
{
    if n == 0 {
        0
    } else {
        let r = sqrt_floor((n - 1) as nat);
        if (r + 1) * (r + 1) <= n {
            r + 1
        } else {
            r
        }
    }
}

pub proof fn lemma_sqrt_floor(n: nat)
    ensures
        sqrt_floor(n) * sqrt_floor(n) <= n,
        n < (sqrt_floor(n) + 1) * (sqrt_floor(n) + 1),
    decreases n,
{
    if n == 0 {
        assert(sqrt_floor(n) == 0);
        assert(n < (sqrt_floor(n) + 1) * (sqrt_floor(n) + 1)) by (nonlinear_arith)
            requires
                n == 0,
                sqrt_floor(n) == 0,
        ;
    } else {
        lemma_sqrt_floor((n - 1) as nat);
        let r = sqrt_floor((n - 1) as nat);
        assert(r * r <= n - 1 < (r + 1) * (r + 1));
        if (r + 1) * (r + 1) <= n {
            assert(sqrt_floor(n) == r + 1);
            assert(n < (r + 2) * (r + 2)) by (nonlinear_arith)
                requires
                    n - 1 < (r + 1) * (r + 1),
                    (r + 1) * (r + 1) <= n,
            ;
            assert(sqrt_floor(n) * sqrt_floor(n) <= n);
            assert(n < (sqrt_floor(n) + 1) * (sqrt_floor(n) + 1));
        } else {
            assert(sqrt_floor(n) == r);
            assert(r * r <= n - 1 <= n);
            assert(sqrt_floor(n) * sqrt_floor(n) <= n);
            assert(n < (sqrt_floor(n) + 1) * (sqrt_floor(n) + 1));
        }
    }
}

/// The floor of the square root is the only `r` with `r^2 <= n < (r+1)^2`.
pub proof fn lemma_sqrt_unique(n: nat, r: nat)
    requires
        r * r <= n,
        n < (r + 1) * (r + 1),
    ensures
        r == sqrt_floor(n),
{
    lemma_sqrt_floor(n);
    let s = sqrt_floor(n);
    assert(r == s) by (nonlinear_arith)
        requires
            r * r <= n,
            n < (r + 1) * (r + 1),
            s * s <= n,
            n < (s + 1) * (s + 1),
    ;
}

/// Euclidean norm of a coordinate sequence, rounded down.
pub open spec fn norm_s(a: Seq<i64>) -> nat {
    sqrt_floor(dot_s(a, a) as nat)
}

/// Cosine similarity in millionths: `dot(a,b) * SCALE` divided by the
/// product of the rounded norms, rounded toward zero; `0` whenever
/// either vector has zero norm.
pub open spec fn cosine_spec(a: Seq<i64>, b: Seq<i64>) -> int {
    if norm_s(a) == 0 || norm_s(b) == 0 {
        0
    } else {
        let d = dot_s(a, b);
        let nn = (norm_s(a) * norm_s(b)) as int;
        if d >= 0 {
            (d * SCALE) / nn
        } else {
            -(((-d) * SCALE) / nn)
        }
    }
}

/// Cosine similarity is symmetric in its two arguments.
pub proof fn lemma_cosine_symmetric(a: Seq<i64>, b: Seq<i64>)
    ensures
        cosine_spec(a, b) == cosine_spec(b, a),
{
    lemma_dot_symmetric(a, b);
}

/// A vector of non-zero norm scores `SCALE` against itself, up to the
/// rounding slack of the integer norm: the score is `1.0` in fixed
/// point within `2 * SCALE / norm` millionths.
pub proof fn lemma_cosine_self(a: Seq<i64>)
    requires
        norm_s(a) > 0,
    ensures
        SCALE as int <= cosine_spec(a, a),
        cosine_spec(a, a) <= SCALE + 2 * (SCALE as int) / (norm_s(a) as int),
{
    let n = dot_s(a, a);
    lemma_dot_self_nonneg(a);
    let r = norm_s(a) as int;
    lemma_sqrt_floor(n as nat);
    assert(r * r <= n < (r + 1) * (r + 1));
    assert(n <= r * r + 2 * r) by (nonlinear_arith)
        requires
            n < (r + 1) * (r + 1),
    ;
    let s = SCALE as int;
    // lower bound: n * s >= (r * r) * s, and (r * r) * s / (r * r) == s
    assert((r * r) * s <= n * s) by (nonlinear_arith)
        requires
            r * r <= n,
            s >= 0,
    ;
    lemma_div_by_multiple(s, r * r);
    assert((s * (r * r)) / (r * r) == s);
    assert(s * (r * r) == (r * r) * s) by (nonlinear_arith);
    lemma_div_is_ordered((r * r) * s, n * s, r * r);
    // upper bound: n * s <= r * r * s + 2 * r * s, whose quotient by
    // r * r is s + (2 * s) / r
    assert(n * s <= (r * r) * s + (2 * r) * s) by (nonlinear_arith)
        requires
            n <= r * r + 2 * r,
            s >= 0,
    ;
    lemma_div_is_ordered(n * s, (r * r) * s + (2 * r) * s, r * r);
    vstd::arithmetic::div_mod::lemma_hoist_over_denominator((2 * r) * s, s, (r * r) as nat);
    assert((2 * r) * s + s * (r * r) == (r * r) * s + (2 * r) * s) by (nonlinear_arith);
    assert(((r * r) * s + (2 * r) * s) / (r * r) == s + ((2 * r) * s) / (r * r));
    // cancel one factor of r: (2 * r * s) / (r * r) == (2 * s) / r
    lemma_div_denominator((2 * r) * s, r, r);
    assert(((2 * r) * s) / r == 2 * s) by {
        lemma_div_by_multiple(2 * s, r);
        assert((2 * s) * r == (2 * r) * s) by (nonlinear_arith);
    };
    assert(((2 * r) * s) / (r * r) == (2 * s) / r);
    assert(cosine_spec(a, a) == (n * s) / (r * r));
}

/// Dot product of two equally long, bounded vectors.
pub fn dot(a: &Vec<i64>, b: &Vec<i64>) -> (r: i128)
    requires
        a@.len() == b@.len(),
        a@.len() <= MAX_DIM,
        bounded(a@, MAX_COORD as int),
        bounded(b@, MAX_COORD as int),
    ensures
        r == dot_s(a@, b@),
{
    let mut acc: i128 = 0;
    let mut i: usize = 0;
    while i < a.len()
        invariant
            i <= a@.len(),
            a@.len() == b@.len(),
            a@.len() <= MAX_DIM,
            bounded(a@, MAX_COORD as int),
            bounded(b@, MAX_COORD as int),
            acc == dot_s(a@.take(i as int), b@.take(i as int)),
            -((i as int) * (MAX_COORD as int) * (MAX_COORD as int)) <= acc as int
                <= (i as int) * (MAX_COORD as int) * (MAX_COORD as int),
        decreases a@.len() - i,
    {
        proof {
            assert(bounded(a@.take(i as int), MAX_COORD as int));
            assert(bounded(b@.take(i as int), MAX_COORD as int));
            assert(-(MAX_COORD as int) * (MAX_COORD as int) <= a@[i as int] * b@[i as int]
                <= (MAX_COORD as int) * (MAX_COORD as int)) by (nonlinear_arith)
                requires
                    -(MAX_COORD as int) <= a@[i as int] <= MAX_COORD as int,
                    -(MAX_COORD as int) <= b@[i as int] <= MAX_COORD as int,
            ;
            assert((i as int + 1) * (MAX_COORD as int) * (MAX_COORD as int)
                == (i as int) * (MAX_COORD as int) * (MAX_COORD as int)
                    + (MAX_COORD as int) * (MAX_COORD as int)) by (nonlinear_arith);
            assert((MAX_DIM as int) * (MAX_COORD as int) * (MAX_COORD as int) < i128::MAX) by (nonlinear_arith);
            assert((i as int) * (MAX_COORD as int) * (MAX_COORD as int)
                <= (MAX_DIM as int) * (MAX_COORD as int) * (MAX_COORD as int)) by (nonlinear_arith)
                requires
                    0 <= i as int <= MAX_DIM as int,
            ;
        }
        let prod: i128 = (a[i] as i128) * (b[i] as i128);
        acc = acc + prod;
        i = i + 1;
        proof {
            assert(a@.take(i as int).drop_last() =~= a@.take(i as int - 1));
            assert(b@.take(i as int).drop_last() =~= b@.take(i as int - 1));
            assert(a@.take(i as int).last() == a@[i as int - 1]);
        }
    }
    proof {
        assert(a@.take(i as int) =~= a@);
        assert(b@.take(i as int) =~= b@);
    }
    acc
}

/// Integer square root, rounded down.
pub fn isqrt(n: u128) -> (r: u64)
    ensures
        r as nat == sqrt_floor(n as nat),
{
    let mut lo: u128 = 0;
    let mut hi: u128 = 18446744073709551616u128;
    proof {
        assert((n as int) < 18446744073709551616int * 18446744073709551616int) by (nonlinear_arith);
    }
    while lo + 1 < hi
        invariant
            lo < hi,
            hi <= 18446744073709551616u128,
            (lo as int) * (lo as int) <= n as int,
            (n as int) < (hi as int) * (hi as int),
        decreases hi - lo,
    {
        let mid: u128 = lo + (hi - lo) / 2;
        proof {
            assert((mid as int) * (mid as int) < u128::MAX as int) by (nonlinear_arith)
                requires
                    mid < 18446744073709551616u128,
            ;
        }
        if mid * mid <= n {
            lo = mid;
        } else {
            hi = mid;
        }
    }
    proof {
        lemma_sqrt_unique(n as nat, lo as nat);
    }
    lo as u64
}

/// Cosine similarity of two equal-dimension embeddings, in millionths.
pub fn cosine_similarity(a: &Vec<i64>, b: &Vec<i64>) -> (r: i128)
    requires
        a@.len() == b@.len(),
        valid_embedding(a@),
        valid_embedding(b@),
    ensures
        r == cosine_spec(a@, b@),
{
    proof {
        lemma_dot_self_nonneg(a@);
        lemma_dot_self_nonneg(b@);
        lemma_dot_bound(a@, b@, MAX_COORD as int);
        lemma_dot_bound(a@, a@, MAX_COORD as int);
        lemma_dot_bound(b@, b@, MAX_COORD as int);
        assert((MAX_DIM as int) * (MAX_COORD as int) * (MAX_COORD as int) * (SCALE as int)
            < i128::MAX) by (nonlinear_arith);
        assert(a@.len() * (MAX_COORD as int) * (MAX_COORD as int)
            <= (MAX_DIM as int) * (MAX_COORD as int) * (MAX_COORD as int)) by (nonlinear_arith)
            requires
                0 <= a@.len() <= MAX_DIM as int,
        ;
    }
    let daa = dot(a, a);
    let dbb = dot(b, b);
    let na = isqrt(daa as u128);
    let nb = isqrt(dbb as u128);
    if na == 0 || nb == 0 {
        return 0;
    }
    let d = dot(a, b);
    proof {
        lemma_sqrt_floor(daa as nat);
        lemma_sqrt_floor(dbb as nat);
        // each norm is at most 3 * 10^11, since its square is at most
        // MAX_DIM * MAX_COORD^2 = 2^16 * 10^18
        assert(na as int <= 300_000_000_000int) by (nonlinear_arith)
            requires
                (na as int) * (na as int) <= daa as int,
                0 <= daa as int <= (MAX_DIM as int) * (MAX_COORD as int) * (MAX_COORD as int),
        ;
        assert(nb as int <= 300_000_000_000int) by (nonlinear_arith)
            requires
                (nb as int) * (nb as int) <= dbb as int,
                0 <= dbb as int <= (MAX_DIM as int) * (MAX_COORD as int) * (MAX_COORD as int),
        ;
        assert((na as int) * (nb as int) <= 300_000_000_000int * 300_000_000_000int)
            by (nonlinear_arith)
            requires
                0 <= na as int <= 300_000_000_000int,
                0 <= nb as int <= 300_000_000_000int,
        ;
        assert((na as int) * (nb as int) >= 1) by (nonlinear_arith)
            requires
                na as int >= 1,
                nb as int >= 1,
        ;
    }
    let denom: u128 = (na as u128) * (nb as u128);
    let scale_u: u128 = 1_000_000u128;
    if d >= 0 {
        let num: u128 = (d as u128) * scale_u;
        proof {
            assert((d as int) * (SCALE as int)
                <= (MAX_DIM as int) * (MAX_COORD as int) * (MAX_COORD as int) * (SCALE as int))
                by (nonlinear_arith)
                requires
                    0 <= d as int <= (MAX_DIM as int) * (MAX_COORD as int) * (MAX_COORD as int),
                    SCALE as int > 0,
            ;
        }
        let q: u128 = num / denom;
        proof {
            vstd::arithmetic::div_mod::lemma_div_is_ordered_by_denominator(
                num as int,
                1,
                denom as int,
            );
            vstd::arithmetic::div_mod::lemma_div_basics(num as int);
        }
        q as i128
    } else {
        let neg: i128 = -d;
        let num: u128 = (neg as u128) * scale_u;
        proof {
            assert((neg as int) * (SCALE as int)
                <= (MAX_DIM as int) * (MAX_COORD as int) * (MAX_COORD as int) * (SCALE as int))
                by (nonlinear_arith)
                requires
                    0 <= neg as int <= (MAX_DIM as int) * (MAX_COORD as int) * (MAX_COORD as int),
                    SCALE as int > 0,
            ;
        }
        let q: u128 = num / denom;
        proof {
            vstd::arithmetic::div_mod::lemma_div_is_ordered_by_denominator(
                num as int,
                1,
                denom as int,
            );
            vstd::arithmetic::div_mod::lemma_div_basics(num as int);
        }
        -(q as i128)
    }
}

/// Checks that a vector is a valid embedding: within the dimension
/// cap, every coordinate within the magnitude cap.
pub fn check_embedding(v: &Vec<i64>) -> (b: bool)
    ensures
        b == valid_embedding(v@),
{
    if v.len() > MAX_DIM {
        return false;
    }
    let mut i: usize = 0;
    while i < v.len()
        invariant
            i <= v@.len(),
            v@.len() <= MAX_DIM,
            forall|t: int| 0 <= t < i ==> -(MAX_COORD as int) <= #[trigger] v@[t] <= MAX_COORD as int,
        decreases v@.len() - i,
    {
        if v[i] > MAX_COORD || v[i] < -MAX_COORD {
            return false;
        }
        i = i + 1;
    }
    true
}

/// The Cauchy-Schwarz inequality: the dot product squared never
/// exceeds the product of the squared norms.
pub proof fn lemma_dot_cauchy_schwarz(a: Seq<i64>, b: Seq<i64>)
    requires
        a.len() == b.len(),
    ensures
        dot_s(a, b) * dot_s(a, b) <= dot_s(a, a) * dot_s(b, b),
    decreases a.len(),
{
    if a.len() == 0 {
    } else {
        lemma_dot_cauchy_schwarz(a.drop_last(), b.drop_last());
        lemma_dot_self_nonneg(a.drop_last());
        lemma_dot_self_nonneg(b.drop_last());
        let d = dot_s(a.drop_last(), b.drop_last());
        let qa = dot_s(a.drop_last(), a.drop_last());
        let qb = dot_s(b.drop_last(), b.drop_last());
        let x = a.last() as int;
        let y = b.last() as int;
        // (qa * y^2 - x^2 * qb)^2 >= 0, so the cross term is dominated
        assert((qa * (y * y) + (x * x) * qb) * (qa * (y * y) + (x * x) * qb) >= 4 * (qa * qb) * (
        (x * y) * (x * y))) by (nonlinear_arith);
        assert(4 * (qa * qb) * ((x * y) * (x * y)) >= 4 * (d * d) * ((x * y) * (x * y)))
            by (nonlinear_arith)
            requires
                d * d <= qa * qb,
        ;
        assert(2 * d * (x * y) <= qa * (y * y) + (x * x) * qb) by (nonlinear_arith)
            requires
                (qa * (y * y) + (x * x) * qb) * (qa * (y * y) + (x * x) * qb) >= 4 * (d * d) * ((x
                    * y) * (x * y)),
                qa >= 0,
                qb >= 0,
        ;
        assert((d + x * y) * (d + x * y) == d * d + 2 * d * (x * y) + (x * y) * (x * y))
            by (nonlinear_arith);
        assert((qa + x * x) * (qb + y * y) == qa * qb + qa * (y * y) + (x * x) * qb + (x * x) * (y
            * y)) by (nonlinear_arith);
        assert((x * y) * (x * y) == (x * x) * (y * y)) by (nonlinear_arith);
        assert((d + x * y) * (d + x * y) <= (qa + x * x) * (qb + y * y));
    }
}

/// Cosine similarity lies within one unit, up to the rounding slack of
/// the integer norms: the score is in `[-1, 1]` in fixed point within
/// `SCALE / norm(a) + SCALE / norm(b) + 1` millionths.
pub proof fn lemma_cosine_within_unit(a: Seq<i64>, b: Seq<i64>)
    requires
        a.len() == b.len(),
        norm_s(a) > 0,
        norm_s(b) > 0,
    ensures
        cosine_spec(a, b) <= SCALE + (SCALE as int) / (norm_s(a) as int) + (SCALE as int) / (
        norm_s(b) as int) + 1,
        -(SCALE + (SCALE as int) / (norm_s(a) as int) + (SCALE as int) / (norm_s(b) as int) + 1)
            <= cosine_spec(a, b),
{
    let d = dot_s(a, b);
    let daa = dot_s(a, a);
    let dbb = dot_s(b, b);
    lemma_dot_self_nonneg(a);
    lemma_dot_self_nonneg(b);
    lemma_dot_cauchy_schwarz(a, b);
    let na = norm_s(a) as int;
    let nb = norm_s(b) as int;
    lemma_sqrt_floor(daa as nat);
    lemma_sqrt_floor(dbb as nat);
    let m = na * nb + na + nb;
    assert(-m <= d <= m) by (nonlinear_arith)
        requires
            d * d <= daa * dbb,
            0 <= daa < (na + 1) * (na + 1),
            0 <= dbb < (nb + 1) * (nb + 1),
            na >= 1,
            nb >= 1,
            m == na * nb + na + nb,
    ;
    let s = SCALE as int;
    let q1 = s / na;
    let q2 = s / nb;
    // m * s stays under (na * nb) * (s + s/na + s/nb + 2), so its
    // quotient by na * nb is at most s + s/na + s/nb + 1
    lemma_fundamental_div_mod_vector(s, na);
    lemma_fundamental_div_mod_vector(s, nb);
    assert(m * s < (na * nb) * (s + q1 + q2 + 2)) by (nonlinear_arith)
        requires
            m == na * nb + na + nb,
            s == na * q1 + (s % na),
            s == nb * q2 + (s % nb),
            0 <= s % na < na,
            0 <= s % nb < nb,
            na >= 1,
            nb >= 1,
            s >= 0,
            q1 >= 0,
            q2 >= 0,
    ;
    assert(q1 >= 0 && q2 >= 0) by {
        vstd::arithmetic::div_mod::lemma_div_pos_is_pos(s, na);
        vstd::arithmetic::div_mod::lemma_div_pos_is_pos(s, nb);
    };
    assert((na * nb) >= 1) by (nonlinear_arith)
        requires
            na >= 1,
            nb >= 1,
    ;
    lemma_multiply_divide_lt(m * s, na * nb, s + q1 + q2 + 2);
    assert((m * s) / (na * nb) <= s + q1 + q2 + 1);
    if d >= 0 {
        assert(d * s <= m * s) by (nonlinear_arith)
            requires
                d <= m,
                s >= 0,
        ;
        lemma_div_is_ordered(d * s, m * s, na * nb);
        assert(cosine_spec(a, b) == (d * s) / (na * nb));
        vstd::arithmetic::div_mod::lemma_div_pos_is_pos(d * s, na * nb);
        assert(d * s >= 0) by (nonlinear_arith)
            requires
                d >= 0,
                s >= 0,
        ;
    } else {
        assert((-d) * s <= m * s) by (nonlinear_arith)
            requires
                -d <= m,
                s >= 0,
        ;
        lemma_div_is_ordered((-d) * s, m * s, na * nb);
        assert(cosine_spec(a, b) == -(((-d) * s) / (na * nb)));
        vstd::arithmetic::div_mod::lemma_div_pos_is_pos((-d) * s, na * nb);
        assert((-d) * s >= 0) by (nonlinear_arith)
            requires
                -d >= 0,
                s >= 0,
        ;
    }
}

/// Restates the fundamental property of division and remainder.
proof fn lemma_fundamental_div_mod_vector(x: int, d: int)
    requires
        d > 0,
    ensures
        x == d * (x / d) + (x % d),
        0 <= x % d < d,
{
    vstd::arithmetic::div_mod::lemma_fundamental_div_mod(x, d);
    vstd::arithmetic::div_mod::lemma_mod_bound(x, d);
}

} // verus!
