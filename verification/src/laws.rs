//! The guarantees of the engine, stated once over the ghost model and
//! proved for every input: value-respecting interpolation, passthrough at
//! equal rates, seamless continuation across blocks, silence past the end
//! of the source, and the playhead advance implied by the rate ratio.

use vstd::prelude::*;

use crate::engine::conversion_ratio;
use crate::engine::interpolated;
use crate::engine::position_of;
use crate::engine::sample_or_silence;
use crate::rational::Rational;
use crate::rational::q_add;
use crate::rational::q_eq;
use crate::rational::q_floor;
use crate::rational::q_fract;
use crate::rational::q_int;
use crate::rational::q_is_int;
use crate::rational::q_mul;
use crate::rational::q_sub;
use crate::rational::q_wf;

verus! {

/// Equality of rationals as numbers is transitive.
pub proof fn lemma_q_eq_trans(a: Rational, b: Rational, c: Rational)
    requires
        q_wf(a),
        q_wf(b),
        q_wf(c),
        q_eq(a, b),
        q_eq(b, c),
    ensures
        q_eq(a, c),
{
    assert(a.n * c.d == c.n * a.d) by (nonlinear_arith)
        requires
            b.d > 0,
            a.n * b.d == b.n * a.d,
            b.n * c.d == c.n * b.d,
    {
    }
}

/// Division and remainder agree for two representations of one rational
/// (raw form of the argument to the division converse).
proof fn lemma_floor_eq_helper(an: int, ad: int, bn: int, bd: int, qa: int, ra: int)
    by (nonlinear_arith)
    requires
        ad > 0,
        bd > 0,
        an * bd == bn * ad,
        an == ad * qa + ra,
        0 <= ra < ad,
    ensures
        (bn - qa * bd) * ad == ra * bd,
        0 <= bn - qa * bd < bd,
{
}

/// Equal rationals have the same floor, the same integrality, and equal
/// fractional parts.
pub proof fn lemma_floor_respects_eq(a: Rational, b: Rational)
    requires
        q_wf(a),
        q_wf(b),
        q_eq(a, b),
    ensures
        q_floor(a) == q_floor(b),
        q_is_int(a) == q_is_int(b),
        q_eq(q_fract(a), q_fract(b)),
{
    vstd::arithmetic::div_mod::lemma_fundamental_div_mod(a.n, a.d);
    vstd::arithmetic::div_mod::lemma_mod_division_less_than_divisor(a.n, a.d);
    let qa = a.n / a.d;
    let ra = a.n % a.d;
    lemma_floor_eq_helper(a.n, a.d, b.n, b.d, qa, ra);
    let rb = b.n - qa * b.d;
    vstd::arithmetic::div_mod::lemma_fundamental_div_mod_converse(b.n, b.d, qa, rb);
    vstd::arithmetic::mul::lemma_mul_nonzero(ra, b.d);
    vstd::arithmetic::mul::lemma_mul_nonzero(rb, a.d);
}

/// Regrouping a product of four factors: `(a*b) * (c*d) == (a*c) * (b*d)`.
proof fn lemma_regroup(a: int, b: int, c: int, d: int)
    ensures
        (a * b) * (c * d) == (a * c) * (b * d),
{
    vstd::arithmetic::mul::lemma_mul_is_associative(a, b, c * d);
    vstd::arithmetic::mul::lemma_mul_is_associative(b, c, d);
    vstd::arithmetic::mul::lemma_mul_is_commutative(b, c);
    vstd::arithmetic::mul::lemma_mul_is_associative(c, b, d);
    vstd::arithmetic::mul::lemma_mul_is_associative(a, c, b * d);
}

/// Multiplying equal rationals by the same rational keeps them equal.
proof fn lemma_mul_right_congruence(t1: Rational, t2: Rational, d: Rational)
    requires
        q_eq(t1, t2),
    ensures
        q_eq(q_mul(t1, d), q_mul(t2, d)),
{
    lemma_regroup(t1.n, d.n, t2.d, d.d);
    lemma_regroup(t2.n, d.n, t1.d, d.d);
    assert((t1.n * t2.d) * (d.n * d.d) == (t2.n * t1.d) * (d.n * d.d));
}

/// Adding the same rational to equal rationals keeps them equal.
proof fn lemma_add_right_congruence(c: Rational, m1: Rational, m2: Rational)
    requires
        q_eq(m1, m2),
    ensures
        q_eq(q_add(c, m1), q_add(c, m2)),
{
    lemma_start_congruence_identity(m1.n, m1.d, m2.n, m2.d, c.n, c.d);
    vstd::arithmetic::mul::lemma_mul_is_commutative(c.d, m2.d);
    vstd::arithmetic::mul::lemma_mul_is_commutative(c.d, m1.d);
}

/// Interpolation depends only on the value of the position, not on the
/// fraction that represents it.
pub proof fn lemma_interpolated_respects_eq(s: Seq<Rational>, a: Rational, b: Rational)
    requires
        q_wf(a),
        q_wf(b),
        q_eq(a, b),
    ensures
        q_eq(interpolated(s, a), interpolated(s, b)),
{
    lemma_floor_respects_eq(a, b);
    if q_is_int(a) {
        assert(interpolated(s, a) == interpolated(s, b));
    } else {
        let before = sample_or_silence(s, q_floor(a));
        let after = sample_or_silence(s, q_floor(a) + 1);
        let diff = q_sub(after, before);
        lemma_mul_right_congruence(q_fract(a), q_fract(b), diff);
        lemma_add_right_congruence(before, q_mul(q_fract(a), diff), q_mul(q_fract(b), diff));
    }
}

/// Exact-match short-circuit: a position that is an exact integer yields
/// the source sample at that integer, with no interpolation applied.
pub proof fn lemma_exact_position_passthrough(s: Seq<Rational>, pos: Rational)
    requires
        q_is_int(pos),
    ensures
        interpolated(s, pos) == sample_or_silence(s, q_floor(pos)),
{
}

/// Positions at or past the end of the source interpolate to exact
/// silence.
pub proof fn lemma_boundary_silence(s: Seq<Rational>, pos: Rational)
    requires
        q_wf(pos),
        pos.n >= s.len() * pos.d,
    ensures
        q_eq(interpolated(s, pos), q_int(0)),
{
    vstd::arithmetic::div_mod::lemma_div_multiples_vanish(s.len() as int, pos.d);
    assert(pos.d * (s.len() as int) == s.len() * pos.d) by (nonlinear_arith);
    vstd::arithmetic::div_mod::lemma_div_is_ordered(s.len() * pos.d, pos.n, pos.d);
    assert(q_floor(pos) >= s.len());
    let z = q_int(0);
    assert(sample_or_silence(s, q_floor(pos)) == z);
    if !q_is_int(pos) {
        assert(sample_or_silence(s, q_floor(pos) + 1) == z);
        let m = q_mul(q_fract(pos), q_sub(z, z));
        assert(m.n == q_fract(pos).n * 0);
        assert(m.n == 0) by (nonlinear_arith)
            requires
                m.n == q_fract(pos).n * 0,
        {
        }
        assert(q_add(z, m).n == 0 * m.d + 0 * 1);
        assert(q_eq(q_add(z, m), z));
    }
}

/// Identity resampling: with equal source and output rates (ratio one)
/// and an integer starting playhead, output sample `i` is exactly source
/// sample `floor(playhead) + i`.
pub proof fn lemma_identity_resampling(s: Seq<Rational>, p: Rational, r: Rational, i: int)
    requires
        q_wf(p),
        q_wf(r),
        q_eq(r, q_int(1)),
        q_is_int(p),
    ensures
        q_eq(interpolated(s, position_of(p, r, i)), sample_or_silence(s, q_floor(p) + i)),
{
    let pos = position_of(p, r, i);
    let f = q_floor(p);
    vstd::arithmetic::div_mod::lemma_fundamental_div_mod(p.n, p.d);
    vstd::arithmetic::mul::lemma_mul_strictly_positive(p.d, 1 * r.d);
    assert(pos.n * 1 == (f + i) * pos.d) by (nonlinear_arith)
        requires
            pos.n == p.n * (1 * r.d) + (i * r.n) * p.d,
            pos.d == p.d * (1 * r.d),
            p.n == p.d * f,
            r.n == r.d,
    {
    }
    lemma_interpolated_respects_eq(s, pos, q_int(f + i));
    assert(interpolated(s, q_int(f + i)) == sample_or_silence(s, f + i));
}

/// The chaining identity behind block continuity: stepping `j` positions
/// from the position `n` steps after `p` lands on position `n + j`.
proof fn lemma_chain_identity(pn: int, pd: int, rn: int, rd: int, n: int, j: int)
    by (nonlinear_arith)
    ensures
        (pn * rd + (n * rn) * pd) * rd + (j * rn) * (pd * rd) == (pn * rd + ((n + j) * rn)
            * pd) * rd,
{
}

/// Restarting from the recorded playhead continues the time axis:
/// `position_of(position_of(p, r, n), r, j)` equals
/// `position_of(p, r, n + j)` as numbers.
pub proof fn lemma_position_chain(p: Rational, r: Rational, n: int, j: int)
    requires
        q_wf(p),
        q_wf(r),
    ensures
        q_eq(position_of(position_of(p, r, n), r, j), position_of(p, r, n + j)),
{
    let q = position_of(p, r, n);
    let a = position_of(q, r, j);
    let b = position_of(p, r, n + j);
    assert(q.n == p.n * r.d + (n * r.n) * p.d);
    assert(q.d == p.d * r.d);
    assert(a.n == q.n * r.d + (j * r.n) * q.d);
    assert(a.d == q.d * r.d);
    lemma_chain_identity(p.n, p.d, r.n, r.d, n, j);
    assert(a.n == b.n * r.d);
    assert((b.n * r.d) * b.d == b.n * (b.d * r.d)) by (nonlinear_arith);
}

/// The congruence identity behind `lemma_position_respects_eq`, with the
/// whole step offset collapsed into `m`.
proof fn lemma_start_congruence_identity(p1n: int, p1d: int, p2n: int, p2d: int, m: int, rd: int)
    requires
        p1n * p2d == p2n * p1d,
    ensures
        (p1n * rd + m * p1d) * (p2d * rd) == (p2n * rd + m * p2d) * (p1d * rd),
{
    vstd::arithmetic::mul::lemma_mul_is_distributive_add_other_way(
        p2d * rd,
        p1n * rd,
        m * p1d,
    );
    vstd::arithmetic::mul::lemma_mul_is_distributive_add_other_way(
        p1d * rd,
        p2n * rd,
        m * p2d,
    );
    lemma_regroup(p1n, rd, p2d, rd);
    lemma_regroup(p2n, rd, p1d, rd);
    vstd::arithmetic::mul::lemma_mul_is_commutative(rd, p2d);
    vstd::arithmetic::mul::lemma_mul_is_commutative(rd, p1d);
    lemma_regroup(m, p1d, p2d, rd);
}

/// Equal starting playheads give equal positions at every step.
pub proof fn lemma_position_respects_eq(p1: Rational, p2: Rational, r: Rational, j: int)
    requires
        q_eq(p1, p2),
    ensures
        q_eq(position_of(p1, r, j), position_of(p2, r, j)),
{
    let a = position_of(p1, r, j);
    let b = position_of(p2, r, j);
    assert(a.n == p1.n * r.d + (j * r.n) * p1.d);
    assert(a.d == p1.d * r.d);
    assert(b.n == p2.n * r.d + (j * r.n) * p2.d);
    assert(b.d == p2.d * r.d);
    lemma_start_congruence_identity(p1.n, p1.d, p2.n, p2.d, j * r.n, r.d);
}

/// Continuity across blocks: when one call has left the playhead at the
/// position `n` steps from `p`, output `j` of the next call equals output
/// `n + j` of a single larger call over the same source — for any block
/// partition.
pub proof fn lemma_continuity_across_blocks(
    s: Seq<Rational>,
    p: Rational,
    ph: Rational,
    r: Rational,
    n: int,
    j: int,
)
    requires
        q_wf(p),
        q_wf(ph),
        q_wf(r),
        q_eq(ph, position_of(p, r, n)),
    ensures
        q_eq(interpolated(s, position_of(ph, r, j)), interpolated(s, position_of(p, r, n + j))),
{
    let q = position_of(p, r, n);
    lemma_position_respects_eq(ph, q, r, j);
    lemma_position_chain(p, r, n, j);
    vstd::arithmetic::mul::lemma_mul_strictly_positive(p.d, 1 * r.d);
    vstd::arithmetic::mul::lemma_mul_strictly_positive(ph.d, 1 * r.d);
    vstd::arithmetic::mul::lemma_mul_strictly_positive(q.d, 1 * r.d);
    lemma_q_eq_trans(position_of(ph, r, j), position_of(q, r, j), position_of(p, r, n + j));
    lemma_interpolated_respects_eq(s, position_of(ph, r, j), position_of(p, r, n + j));
}

/// Each produced output sample advances the playhead by exactly the
/// conversion ratio.
pub proof fn lemma_advance_per_sample(p: Rational, r: Rational, i: int)
    requires
        q_wf(p),
        q_wf(r),
    ensures
        q_eq(q_sub(position_of(p, r, i + 1), position_of(p, r, i)), r),
{
    let a = position_of(p, r, i + 1);
    let b = position_of(p, r, i);
    let ghost dd = p.d * r.d;
    assert(a.n == p.n * r.d + ((i + 1) * r.n) * p.d);
    assert(b.n == p.n * r.d + (i * r.n) * p.d);
    assert(a.d == dd && b.d == dd);
    assert(a.n - b.n == r.n * p.d) by (nonlinear_arith)
        requires
            a.n == p.n * r.d + ((i + 1) * r.n) * p.d,
            b.n == p.n * r.d + (i * r.n) * p.d,
    {
    }
    let sub = q_sub(a, b);
    assert(sub.n == a.n * dd - b.n * dd);
    assert(a.n * dd - b.n * dd == (a.n - b.n) * dd) by (nonlinear_arith);
    assert(sub.n == (r.n * p.d) * (p.d * r.d));
    assert(sub.d == (p.d * r.d) * (p.d * r.d));
    assert(((r.n * p.d) * (p.d * r.d)) * r.d == r.n * ((p.d * r.d) * (p.d * r.d)))
        by (nonlinear_arith);
}

/// Downsampling to half the rate consumes exactly two source samples per
/// output sample; upsampling to double the rate consumes exactly half a
/// source sample per output sample.
pub proof fn lemma_downsampling_rate(rate: Rational)
    requires
        q_wf(rate),
        rate.n > 0,
    ensures
        q_eq(conversion_ratio(rate, q_mul(rate, Rational { n: 1, d: 2 })), q_int(2)),
        q_eq(conversion_ratio(rate, q_mul(rate, q_int(2))), Rational { n: 1, d: 2 }),
{
    let half = conversion_ratio(rate, q_mul(rate, Rational { n: 1, d: 2 }));
    let double = conversion_ratio(rate, q_mul(rate, q_int(2)));
    assert(half.n * 1 == 2 * half.d) by (nonlinear_arith)
        requires
            half.n == rate.n * (rate.d * 2),
            half.d == rate.d * (rate.n * 1),
    {
    }
    assert(double.n * 2 == 1 * double.d) by (nonlinear_arith)
        requires
            double.n == rate.n * (rate.d * 1),
            double.d == rate.d * (rate.n * 2),
    {
    }
}

} // verus!
