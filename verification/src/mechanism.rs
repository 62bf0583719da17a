//! The mechanism model: solving the linkage pose for a given progress.
//!
//! Two links OA and AB meet at A; O is the origin and B slides on the x axis.
//! For a progress `p` (turn fraction), the distance `ob` from O to B follows a
//! three-way case split on comparing the link lengths; A is the intersection
//! of the circles around O (radius `oa`) and B (radius `ab`), taking the
//! negative-y root for the first half of the cycle and the positive-y root for
//! the second; M interpolates between A and B by the ratio `am_per_ab` (and
//! collapses onto A when the second link has zero length).
//!
//! The configuration can be degenerate: when `ob` is zero the intersection is
//! undefined, and when the circles do not meet there is no real root. `solve`
//! surfaces both as `None` instead of producing meaningless coordinates.

use vstd::prelude::*;
use crate::fixed::{
    SCALE, fdiv, fmul, fxdiv, absi, sqrt_floor, fdiv128, fx_mul, fx_div, fx_sqrt,
    lemma_fdiv_floor, lemma_fmul_unit_bound, lemma_fmul_ratio_bound, lemma_fmul_square_bound,
};
use crate::trig::{cos_turn, cos_turn_spec, HALF_TURN};

verus! {

/// Largest admissible link length (1000.0 in scalar units): keeps every
/// intermediate of the solver within `i64`.
pub const MAX_LEN: i64 = 1_000_000_000;

/// Largest admissible magnitude of the interpolation ratio (2.0 in scalar
/// units): keeps the interpolated point within `i64`.
pub const MAX_RATIO: i64 = 2_000_000;

/// A point of the plane, in fixed-point coordinates.
#[derive(Clone, Copy, Debug, PartialEq, Eq, Structural)]
pub struct Point2 {
    pub x: i64,
    pub y: i64,
}

/// The instantaneous solved pose: the joint A, the slider B and the traced
/// point M. O is always the origin and is not stored.
#[derive(Clone, Copy, Debug, PartialEq, Eq, Structural)]
pub struct MechanismPose {
    pub a: Point2,
    pub b: Point2,
    pub m: Point2,
}

/// The linkage's defining parameters: the two link lengths and the ratio
/// AM/AB placing M on the segment from A to B.
#[derive(Clone, Copy, Debug, PartialEq, Eq, Structural)]
pub struct LinkageParameters {
    pub oa: i64,
    pub ab: i64,
    pub am_per_ab: i64,
}

impl LinkageParameters {
    /// Lengths are nonnegative and everything is within the solver's numeric
    /// range.
    pub open spec fn wf(&self) -> bool {
        &&& 0 <= self.oa <= MAX_LEN
        &&& 0 <= self.ab <= MAX_LEN
        &&& -MAX_RATIO <= self.am_per_ab <= MAX_RATIO
    }
}

/// Distance from O to B: the three-way case split on comparing the link
/// lengths, each branch a distinct physical configuration.
pub open spec fn ob_of(oa: int, ab: int, c: int) -> int {
    if oa < ab {
        fmul(oa, c) + ab
    } else if oa == ab {
        fmul(oa + ab, c)
    } else {
        oa + fmul(ab, c)
    }
}

/// The x coordinate of A: circle-circle intersection of circle(O, oa) and
/// circle(B, ab), with B at (ob, 0).
pub open spec fn ax_of(oa: int, ab: int, ob: int) -> int
    recommends
        ob != 0,
{
    fxdiv(fmul(ob, ob) + fmul(oa, oa) - fmul(ab, ab), 2 * ob)
}

/// The squared-height discriminant under the circle around O: negative
/// exactly when the circles do not intersect.
pub open spec fn disc_of(oa: int, ax: int) -> int {
    fmul(oa, oa) - fmul(ax, ax)
}

/// A real pose exists at progress `p`: B is off the origin and the circles
/// intersect.
pub open spec fn solvable_at(oa: int, ab: int, p: int) -> bool {
    let ob = ob_of(oa, ab, cos_turn_spec(p));
    ob != 0 && disc_of(oa, ax_of(oa, ab, ob)) >= 0
}

/// The solved pose at progress `p`, or `None` when the configuration is
/// degenerate there.
pub open spec fn solve_spec(oa: int, ab: int, am: int, p: int) -> Option<MechanismPose> {
    let c = cos_turn_spec(p);
    let ob = ob_of(oa, ab, c);
    if ob == 0 {
        None
    } else {
        let ax = ax_of(oa, ab, ob);
        let disc = disc_of(oa, ax);
        if disc < 0 {
            None
        } else {
            let root = sqrt_floor(disc * (SCALE as int));
            let ay = if p < HALF_TURN as int {
                -root
            } else {
                root
            };
            let a = Point2 { x: ax as i64, y: ay as i64 };
            let b = Point2 { x: ob as i64, y: 0 };
            let m = if ab != 0 {
                Point2 { x: (ax + fmul(am, ob - ax)) as i64, y: (ay + fmul(am, -ay)) as i64 }
            } else {
                a
            };
            Some(MechanismPose { a, b, m })
        }
    }
}

/// The traced point at progress `p`, or `None` where the pose is degenerate.
pub open spec fn m_at(oa: int, ab: int, am: int, p: int) -> Option<Point2> {
    match solve_spec(oa, ab, am, p) {
        Some(pose) => Some(pose.m),
        None => None,
    }
}

/// The floor quotient by a divisor of magnitude at least two is at most half
/// the scaled dividend, in magnitude.
proof fn lemma_fxdiv_half_bound(a: int, b: int)
    requires
        b >= 2 || b <= -2,
    ensures
        2 * absi(fxdiv(a, b)) <= absi(a) * (SCALE as int) + absi(b),
{
    let s = SCALE as int;
    let n = if b > 0 {
        a * s
    } else {
        -(a * s)
    };
    let d = absi(b);
    assert(absi(n) == absi(a) * s) by (nonlinear_arith)
        requires
            s > 0,
            n == if b > 0 { a * s } else { -(a * s) },
            absi(n) == if n >= 0 { n } else { -n },
            absi(a) == if a >= 0 { a } else { -a },
    ;
    let q = fxdiv(a, b);
    assert(q == fdiv(n, d));
    lemma_fdiv_floor(n, d);
    if q >= 0 {
        assert(2 * q <= d * q) by (nonlinear_arith)
            requires
                q >= 0,
                d >= 2,
        ;
    } else {
        assert(2 * -q <= d * -q) by (nonlinear_arith)
            requires
                q <= 0,
                d >= 2,
        ;
        assert(d * -q == -(d * q)) by (nonlinear_arith);
    }
}

/// Solve the linkage at progress `progress`, a turn fraction in `[0, SCALE)`.
///
/// Returns `Some` exactly when a real pose exists there, and then the pose is
/// the one `solve_spec` describes: B on the x axis at the case-split distance,
/// A on both circles with its y sign following the half-cycle, and M the
/// interpolation between A and B (A itself when `ab` is zero).
pub fn solve(params: &LinkageParameters, progress: i64) -> (r: Option<MechanismPose>)
    requires
        params.wf(),
        0 <= progress < SCALE,
    ensures
        r == solve_spec(
            params.oa as int,
            params.ab as int,
            params.am_per_ab as int,
            progress as int,
        ),
        r is Some <==> solvable_at(params.oa as int, params.ab as int, progress as int),
        r is Some && progress < HALF_TURN ==> r->Some_0.a.y <= 0,
        r is Some && progress >= HALF_TURN ==> r->Some_0.a.y >= 0,
        r is Some && params.ab == 0 ==> r->Some_0.m == r->Some_0.a,
{
    let oa = params.oa;
    let ab = params.ab;
    let am = params.am_per_ab;
    let c = cos_turn(progress);
    let ob: i64;
    if oa < ab {
        proof {
            lemma_fmul_unit_bound(oa as int, c as int, MAX_LEN as int);
        }
        ob = fx_mul(oa, c) + ab;
    } else if oa == ab {
        proof {
            lemma_fmul_unit_bound(oa as int + ab as int, c as int, 2 * MAX_LEN as int);
        }
        ob = fx_mul(oa + ab, c);
    } else {
        proof {
            lemma_fmul_unit_bound(ab as int, c as int, MAX_LEN as int);
        }
        ob = oa + fx_mul(ab, c);
    }
    assert(ob as int == ob_of(oa as int, ab as int, c as int));
    assert(-2_000_000_000 <= ob as int <= 2_000_000_000);
    if ob == 0 {
        return None;
    }
    proof {
        lemma_fmul_square_bound(ob as int, 2_000_000_000);
        lemma_fmul_square_bound(oa as int, MAX_LEN as int);
        lemma_fmul_square_bound(ab as int, MAX_LEN as int);
    }
    let ob2: i64 = fx_mul(ob, ob);
    let oa2: i64 = fx_mul(oa, oa);
    let ab2: i64 = fx_mul(ab, ab);
    assert(ob2 <= 4_000_000_000_000 && oa2 <= 1_000_000_000_000 && ab2 <= 1_000_000_000_000);
    let num: i64 = ob2 + oa2 - ab2;
    proof {
        lemma_fxdiv_half_bound(num as int, 2 * ob as int);
    }
    let ax: i64 = fx_div(num, 2 * ob);
    assert(ax as int == ax_of(oa as int, ab as int, ob as int));
    assert(absi(ax as int) <= 2_500_000_002_000_000_000);
    proof {
        assert((ax as int) * (ax as int) <= 7_000_000_000_000_000_000_000_000_000_000_000_000)
            by (nonlinear_arith)
            requires
                absi(ax as int) <= 2_500_000_002_000_000_000,
                absi(ax as int) == if ax as int >= 0 { ax as int } else { -(ax as int) },
        ;
        lemma_fmul_square_bound(ax as int, 2_500_000_002_000_000_000);
    }
    let axsq: i128 = fdiv128((ax as i128) * (ax as i128), 1_000_000);
    assert(axsq == fmul(ax as int, ax as int));
    let disc128: i128 = (oa2 as i128) - axsq;
    assert(disc128 == disc_of(oa as int, ax as int));
    if disc128 < 0 {
        return None;
    }
    let disc: i64 = disc128 as i64;
    let root: i64 = fx_sqrt(disc);
    proof {
        if root as int > 1_000_000_000 {
            assert((root as int) * (root as int) > 1_000_000_000_000_000_000) by (nonlinear_arith)
                requires
                    (root as int) > 1_000_000_000,
            ;
        }
    }
    assert(0 <= root <= 1_000_000_000);
    let ay: i64 = if progress < HALF_TURN {
        -root
    } else {
        root
    };
    let a = Point2 { x: ax, y: ay };
    let b = Point2 { x: ob, y: 0 };
    let m: Point2;
    if ab != 0 {
        let diff: i64 = ob - ax;
        proof {
            lemma_fmul_ratio_bound(am as int, diff as int, 2);
            lemma_fmul_ratio_bound(am as int, -(ay as int), 2);
        }
        let mx: i64 = ax + fx_mul(am, diff);
        let my: i64 = ay + fx_mul(am, -ay);
        m = Point2 { x: mx, y: my };
    } else {
        m = a;
    }
    Some(MechanismPose { a, b, m })
}

/// Progress of the `i`th of `n` evenly spaced samples over one cycle.
pub open spec fn sample_progress(i: int, n: int) -> int
    recommends
        0 <= i < n,
{
    fdiv(i * (SCALE as int), n)
}

/// Tabulate the path of M: exactly `resolution` entries, entry `i` being the
/// traced point at progress `i / resolution` (or `None` where the pose is
/// degenerate there).
pub fn tabulate(params: &LinkageParameters, resolution: usize) -> (path: Vec<Option<Point2>>)
    requires
        params.wf(),
        0 < resolution <= 1_000_000,
    ensures
        path@.len() == resolution,
        forall|i: int|
            0 <= i < resolution ==> path@[i] == m_at(
                params.oa as int,
                params.ab as int,
                params.am_per_ab as int,
                sample_progress(i, resolution as int),
            ),
{
    let mut path: Vec<Option<Point2>> = Vec::new();
    let n = resolution;
    let mut i: usize = 0;
    while i < n
        invariant
            0 < n <= 1_000_000,
            i <= n,
            params.wf(),
            path@.len() == i,
            forall|j: int|
                0 <= j < i ==> path@[j] == m_at(
                    params.oa as int,
                    params.ab as int,
                    params.am_per_ab as int,
                    sample_progress(j, n as int),
                ),
        decreases n - i,
    {
        let p: u64 = ((i as u64) * 1_000_000) / (n as u64);
        proof {
            lemma_fdiv_floor((i as int) * 1_000_000, n as int);
            assert((n as int) * (p as int) <= (i as int) * 1_000_000);
            assert((i as int) * 1_000_000 < (n as int) * 1_000_000) by (nonlinear_arith)
                requires
                    0 <= (i as int) < (n as int),
            ;
            assert((p as int) < 1_000_000) by (nonlinear_arith)
                requires
                    (n as int) * (p as int) < (n as int) * 1_000_000,
                    (n as int) > 0,
            ;
            assert(p as int == sample_progress(i as int, n as int));
        }
        let pose = solve(params, p as i64);
        match pose {
            Some(pose) => path.push(Some(pose.m)),
            None => path.push(None),
        }
        i = i + 1;
    }
    path
}

/// Within the `oa < ab` branch the distance to B is continuous in `oa` at the
/// finest representable step: growing `oa` by one millionth moves `ob` by at
/// most one millionth (the cosine factor has magnitude at most 1).
pub proof fn lemma_ob_side_branch_step(oa: int, ab: int, c: int)
    requires
        0 <= oa,
        oa + 1 < ab,
        -(SCALE as int) <= c <= SCALE as int,
    ensures
        absi(ob_of(oa + 1, ab, c) - ob_of(oa, ab, c)) <= 1,
{
    let s = SCALE as int;
    lemma_fdiv_floor(oa * c, s);
    lemma_fdiv_floor((oa + 1) * c, s);
    let q0 = fmul(oa, c);
    let q1 = fmul(oa + 1, c);
    assert((oa + 1) * c == oa * c + c) by (nonlinear_arith);
    if q1 > q0 + 1 {
        assert(s * q1 >= s * (q0 + 2)) by (nonlinear_arith)
            requires
                s > 0,
                q1 >= q0 + 2,
        ;
        assert(s * (q0 + 2) == s * q0 + 2 * s) by (nonlinear_arith);
    }
    if q1 < q0 - 1 {
        assert(s * q0 >= s * (q1 + 2)) by (nonlinear_arith)
            requires
                s > 0,
                q0 >= q1 + 2,
        ;
        assert(s * (q1 + 2) == s * q1 + 2 * s) by (nonlinear_arith);
    }
}

/// At the `oa == ab` boundary, the `oa < ab` and `oa > ab` formulas for the
/// distance to B agree with each other for every cosine value, and with the
/// `oa == ab` formula exactly where the cosine is 1 (the start of the cycle).
///
/// Away from a cosine of 1 the middle branch genuinely differs from the two
/// side branches: the case split is a deliberate discontinuity of the model.
pub proof fn lemma_case_split_boundary(oa: int, ab: int, c: int)
    requires
        oa == ab,
        -(SCALE as int) <= c <= SCALE as int,
    ensures
        fmul(oa, c) + ab == oa + fmul(ab, c),
        c == SCALE as int ==> ob_of(oa, ab, c) == fmul(oa, c) + ab,
{
    if c == SCALE as int {
        crate::fixed::lemma_fmul_scale(oa + ab);
        crate::fixed::lemma_fmul_scale(oa);
    }
}

} // verus!
