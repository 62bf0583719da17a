//! Cosine over one normalized turn, in fixed point.
//!
//! The driving angle is `progress * 2π`, so the cosine is taken directly as a
//! function of progress (a turn fraction in `[0, 1)`). One quarter turn is
//! covered by an even quartic that is exact at both ends (`1.0` at `0`, `0.0`
//! at a quarter turn); the other quadrants follow by reflection, so the values
//! at `0`, `1/4`, `1/2` and `3/4` of a turn are exactly `1`, `0`, `-1` and `0`.

use vstd::prelude::*;
use crate::fixed::{SCALE, fdiv, lemma_fdiv_floor, lemma_fdiv_range};

verus! {

/// A quarter turn, in progress units.
pub const QUARTER_TURN: i64 = 250_000;

/// Half a turn, in progress units.
pub const HALF_TURN: i64 = 500_000;

/// Three quarters of a turn, in progress units.
pub const THREE_QUARTER_TURN: i64 = 750_000;

/// Quadratic coefficient of the quarter-wave polynomial (π²/8, in millionths).
pub const COS_COEFF_2: i64 = 1_233_700;

/// Quartic coefficient of the quarter-wave polynomial, chosen so the
/// polynomial is exactly zero at a quarter turn.
pub const COS_COEFF_4: i64 = 233_700;

/// The quarter-wave polynomial `1 - c2·u² + c4·u⁴` where `u` rescales
/// `x ∈ [0, QUARTER_TURN]` to `[0, 1]`, evaluated in fixed point.
pub open spec fn qcos_spec(x: int) -> int
    recommends
        0 <= x <= QUARTER_TURN as int,
{
    let s = SCALE as int;
    let u = 4 * x;
    let v = fdiv(u * u, s);
    s - fdiv((COS_COEFF_2 as int) * v, s) + fdiv((COS_COEFF_4 as int) * fdiv(v * v, s), s)
}

/// Cosine of a turn fraction `p ∈ [0, SCALE)`, by quadrant reflection of the
/// quarter-wave polynomial.
pub open spec fn cos_turn_spec(p: int) -> int
    recommends
        0 <= p < SCALE as int,
{
    if p <= QUARTER_TURN as int {
        qcos_spec(p)
    } else if p <= HALF_TURN as int {
        -qcos_spec(HALF_TURN as int - p)
    } else if p <= THREE_QUARTER_TURN as int {
        -qcos_spec(p - HALF_TURN as int)
    } else {
        qcos_spec(SCALE as int - p)
    }
}

/// The quarter-wave polynomial stays within `[-1, 1]`.
pub proof fn lemma_qcos_range(x: int)
    requires
        0 <= x <= QUARTER_TURN as int,
    ensures
        -(SCALE as int) <= qcos_spec(x) <= SCALE as int,
{
    let s = SCALE as int;
    let u = 4 * x;
    assert(0 <= u * u <= s * s) by (nonlinear_arith)
        requires
            0 <= u <= s,
    ;
    let v = fdiv(u * u, s);
    lemma_fdiv_range(u * u, s);
    lemma_fdiv_floor(u * u, s);
    assert(s * v <= s * s);
    assert(v <= s);
    let t1 = fdiv((COS_COEFF_2 as int) * v, s);
    lemma_fdiv_range((COS_COEFF_2 as int) * v, s);
    lemma_fdiv_floor((COS_COEFF_2 as int) * v, s);
    assert(s * t1 <= (COS_COEFF_2 as int) * v);
    assert((COS_COEFF_2 as int) * v <= (COS_COEFF_2 as int) * s);
    assert(t1 <= COS_COEFF_2 as int);
    assert(0 <= v * v <= v * s) by (nonlinear_arith)
        requires
            0 <= v <= s,
    ;
    let w = fdiv(v * v, s);
    lemma_fdiv_range(v * v, s);
    lemma_fdiv_floor(v * v, s);
    assert(s * w <= v * s);
    assert(v * s == s * v) by (nonlinear_arith);
    assert(w <= v);
    let t2 = fdiv((COS_COEFF_4 as int) * w, s);
    lemma_fdiv_range((COS_COEFF_4 as int) * w, s);
    lemma_fdiv_floor((COS_COEFF_4 as int) * w, s);
    assert(s * t2 <= (COS_COEFF_4 as int) * w);
    assert((COS_COEFF_4 as int) * w <= (COS_COEFF_2 as int) * v) by (nonlinear_arith)
        requires
            0 <= w <= v,
    ;
    assert(s * t2 < s * t1 + s);
    assert(t2 <= t1);
}

/// Exec evaluation of the quarter-wave polynomial.
fn qcos(x: i64) -> (r: i64)
    requires
        0 <= x <= QUARTER_TURN,
    ensures
        r == qcos_spec(x as int),
        -SCALE <= r <= SCALE,
{
    proof {
        lemma_qcos_range(x as int);
    }
    let u: u64 = (4 * x) as u64;
    proof {
        assert((u as int) * (u as int) <= 1_000_000_000_000) by (nonlinear_arith)
            requires
                0 <= (u as int) <= 1_000_000,
        ;
    }
    let uu: u64 = u * u;
    let v: u64 = uu / 1_000_000;
    proof {
        lemma_fdiv_floor(uu as int, 1_000_000);
        lemma_fdiv_range(uu as int, 1_000_000);
        assert(1_000_000 * (v as int) <= 1_000_000_000_000);
    }
    let t1: u64 = (1_233_700 * v) / 1_000_000;
    let vv: u64 = v * v;
    proof {
        assert((v as int) * (v as int) <= 1_000_000_000_000) by (nonlinear_arith)
            requires
                0 <= (v as int) <= 1_000_000,
        ;
    }
    let w: u64 = vv / 1_000_000;
    proof {
        lemma_fdiv_floor(vv as int, 1_000_000);
        assert(1_000_000 * (w as int) <= 1_000_000_000_000);
    }
    let t2: u64 = (233_700 * w) / 1_000_000;
    proof {
        lemma_fdiv_range(1_233_700 * (v as int), 1_000_000);
        lemma_fdiv_floor(1_233_700 * (v as int), 1_000_000);
        lemma_fdiv_range(233_700 * (w as int), 1_000_000);
        lemma_fdiv_floor(233_700 * (w as int), 1_000_000);
        assert(1_000_000 * (t1 as int) <= 1_233_700 * 1_000_000);
        assert(1_000_000 * (t2 as int) <= 233_700 * 1_000_000);
    }
    1_000_000 - (t1 as i64) + (t2 as i64)
}

/// Exec cosine of a turn fraction.
pub fn cos_turn(p: i64) -> (r: i64)
    requires
        0 <= p < SCALE,
    ensures
        r == cos_turn_spec(p as int),
        -SCALE <= r <= SCALE,
{
    if p <= QUARTER_TURN {
        qcos(p)
    } else if p <= HALF_TURN {
        -qcos(HALF_TURN - p)
    } else if p <= THREE_QUARTER_TURN {
        -qcos(p - HALF_TURN)
    } else {
        qcos(SCALE - p)
    }
}

/// The cosine's exact values at the quadrant boundaries: 1 at zero, 0 at each
/// quarter, and -1 at half a turn.
pub proof fn lemma_cos_turn_boundaries()
    ensures
        cos_turn_spec(0) == SCALE as int,
        cos_turn_spec(QUARTER_TURN as int) == 0,
        cos_turn_spec(HALF_TURN as int) == -(SCALE as int),
        cos_turn_spec(THREE_QUARTER_TURN as int) == 0,
{
    lemma_qcos_zero();
    lemma_qcos_quarter();
}

/// The quarter-wave polynomial is exactly 1 at zero.
proof fn lemma_qcos_zero()
    ensures
        qcos_spec(0) == SCALE as int,
{
    let s = SCALE as int;
    assert(fdiv(0, s) == 0) by {
        crate::fixed::lemma_fdiv_unique(0, s, 0);
    }
    let u = 4 * 0;
    assert(u * u == 0) by (nonlinear_arith)
        requires
            u == 0,
    ;
    let v = fdiv(0, s);
    assert((COS_COEFF_2 as int) * v == 0);
    assert(v * v == 0);
    assert((COS_COEFF_4 as int) * fdiv(0, s) == 0);
}

/// The quarter-wave polynomial is exactly 0 at a quarter turn.
proof fn lemma_qcos_quarter()
    ensures
        qcos_spec(QUARTER_TURN as int) == 0,
{
    let s = SCALE as int;
    let u = 4 * (QUARTER_TURN as int);
    assert(u == 1_000_000);
    assert(u * u == 1_000_000_000_000) by (nonlinear_arith)
        requires
            u == 1_000_000,
    ;
    assert(fdiv(1_000_000_000_000, s) == 1_000_000) by {
        crate::fixed::lemma_fdiv_unique(1_000_000_000_000, s, 1_000_000);
    }
    let v = fdiv(u * u, s);
    assert(v == 1_000_000);
    assert((COS_COEFF_2 as int) * v == 1_233_700_000_000) by (nonlinear_arith)
        requires
            v == 1_000_000,
    ;
    assert(fdiv(1_233_700_000_000, s) == 1_233_700) by {
        crate::fixed::lemma_fdiv_unique(1_233_700_000_000, s, 1_233_700);
    }
    assert(v * v == 1_000_000_000_000) by (nonlinear_arith)
        requires
            v == 1_000_000,
    ;
    let w = fdiv(v * v, s);
    assert(w == 1_000_000);
    assert((COS_COEFF_4 as int) * w == 233_700_000_000) by (nonlinear_arith)
        requires
            w == 1_000_000,
    ;
    assert(fdiv(233_700_000_000, s) == 233_700) by {
        crate::fixed::lemma_fdiv_unique(233_700_000_000, s, 233_700);
    }
}

/// The cosine of a turn is symmetric about half a turn: reversing the
/// direction of travel leaves it unchanged.
pub proof fn lemma_cos_turn_symmetry(p: int)
    requires
        0 < p < SCALE as int,
    ensures
        cos_turn_spec(SCALE as int - p) == cos_turn_spec(p),
{
    lemma_qcos_quarter();
}

} // verus!
