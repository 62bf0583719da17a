use linkage::mechanism::{solve, tabulate, LinkageParameters, MechanismPose};
use linkage::trig::cos_turn;
use linkage::fixed::SCALE;

fn unit_params() -> LinkageParameters {
    LinkageParameters { oa: 1_000_000, ab: 1_000_000, am_per_ab: 500_000 }
}

#[test]
fn cos_turn_quadrant_boundaries() {
    assert_eq!(cos_turn(0), 1_000_000);
    assert_eq!(cos_turn(250_000), 0);
    assert_eq!(cos_turn(500_000), -1_000_000);
    assert_eq!(cos_turn(750_000), 0);
}

#[test]
fn cos_turn_eighth_turn() {
    // 1 - (pi^2/8)u^2 + c4*u^4 at u = 1/2, evaluated in millionths
    assert_eq!(cos_turn(125_000), 706_181);
}

#[test]
fn cos_turn_symmetric() {
    for p in [1, 100_000, 333_333, 499_999, 500_001, 900_000, 999_999] {
        assert_eq!(cos_turn(SCALE - p), cos_turn(p));
    }
}

#[test]
fn solve_equal_lengths_at_start() {
    // oa = ab = 1.0, am/ab = 0.5, progress 0: the "equal" branch gives
    // ob = 2*cos(0) = 2.0, then a = (1.0, -0.0) and m the midpoint (1.5, 0.0)
    let pose: MechanismPose = solve(&unit_params(), 0).unwrap();
    assert_eq!(pose.b.x, 2_000_000);
    assert_eq!(pose.b.y, 0);
    assert_eq!(pose.a.x, 1_000_000);
    assert_eq!(pose.a.y, 0);
    assert_eq!(pose.m.x, 1_500_000);
    assert_eq!(pose.m.y, 0);
}

#[test]
fn solve_sign_convention() {
    // oa = 1.0, ab = 2.0: solvable over the whole cycle, a.y flips at 0.5
    let params = LinkageParameters { oa: 1_000_000, ab: 2_000_000, am_per_ab: 500_000 };
    let early = solve(&params, 250_000).unwrap();
    assert_eq!(early.a.y, -968_245);
    let late = solve(&params, 750_000).unwrap();
    assert_eq!(late.a.y, 968_245);
    let mid = solve(&params, 500_000).unwrap();
    assert!(mid.a.y >= 0);
    for p in [1, 100_000, 499_999] {
        assert!(solve(&params, p).unwrap().a.y <= 0);
        assert!(solve(&params, SCALE - p).unwrap().a.y >= 0);
    }
}

#[test]
fn solve_degenerate_ab_collapses_m_onto_a() {
    let params = LinkageParameters { oa: 1_000_000, ab: 0, am_per_ab: 700_000 };
    for p in [0, 100_000, 400_000, 600_000, 999_999] {
        let pose = solve(&params, p).unwrap();
        assert_eq!(pose.m, pose.a);
    }
}

#[test]
fn solve_reports_degenerate_configurations() {
    // equal lengths put B on the origin at the quarter turns
    assert!(solve(&unit_params(), 250_000).is_none());
    assert!(solve(&unit_params(), 750_000).is_none());
    // near-tangent circles can round to a negative discriminant at mid-cycle
    let params = LinkageParameters { oa: 999_999, ab: 1_000_000, am_per_ab: 500_000 };
    assert!(solve(&params, 500_000).is_none());
}

#[test]
fn solve_opposite_half_cycle() {
    let pose = solve(&unit_params(), 500_000).unwrap();
    assert_eq!(pose.b.x, -2_000_000);
    assert_eq!(pose.a.x, -1_000_000);
    assert_eq!(pose.a.y, 0);
    assert_eq!(pose.m.x, -1_500_000);
    assert_eq!(pose.m.y, 0);
}

#[test]
fn case_split_at_the_length_boundary() {
    // one millionth below and above oa == ab, at an eighth of a turn
    let below = LinkageParameters { oa: 999_999, ab: 1_000_000, am_per_ab: 500_000 };
    let above = LinkageParameters { oa: 1_000_001, ab: 1_000_000, am_per_ab: 500_000 };
    let b_below = solve(&below, 125_000).unwrap().b.x;
    let b_above = solve(&above, 125_000).unwrap().b.x;
    // the two side branches approach a common value...
    assert_eq!(b_below, 1_706_180);
    assert_eq!(b_above, 1_706_182);
    // ...while the equal branch is a genuinely different configuration there
    let b_equal = solve(&unit_params(), 125_000).unwrap().b.x;
    assert_eq!(b_equal, 1_412_362);
    // where the cosine is exactly 1 all three branches agree to a millionth
    assert_eq!(solve(&below, 0).unwrap().b.x, 1_999_999);
    assert_eq!(solve(&unit_params(), 0).unwrap().b.x, 2_000_000);
    assert_eq!(solve(&above, 0).unwrap().b.x, 2_000_001);
}

#[test]
fn tabulation_matches_pointwise_solve() {
    let params = LinkageParameters { oa: 1_000_000, ab: 2_000_000, am_per_ab: 300_000 };
    let n: usize = 8;
    let path = tabulate(&params, n);
    assert_eq!(path.len(), n);
    for i in 0..n {
        let p = ((i as u64) * 1_000_000 / (n as u64)) as i64;
        let expected = solve(&params, p).map(|pose| pose.m);
        assert_eq!(path[i], expected);
    }
}

#[test]
fn tabulation_records_degenerate_samples() {
    let path = tabulate(&unit_params(), 4);
    assert!(path[0].is_some());
    assert!(path[1].is_none());
    assert!(path[2].is_some());
    assert!(path[3].is_none());
}
