use linkage::animation::AnimationState;

#[test]
fn tick_advances_by_elapsed_fraction() {
    let mut anim = AnimationState::new(true, 3_000_000, 0);
    anim.tick(1_500_000);
    assert_eq!(anim.progress, 500_000);
    assert_eq!(anim.last_tick_us, 1_500_000);
}

#[test]
fn tick_wraps_modulo_one_turn() {
    let mut anim = AnimationState::new(true, 2_000_000, 0);
    anim.set_progress(900_000);
    anim.tick(400_000);
    // 0.9 + 0.2 wraps to 0.1
    assert_eq!(anim.progress, 100_000);
}

#[test]
fn tick_over_a_whole_period_returns_to_start() {
    let mut anim = AnimationState::new(true, 3_000_000, 1_000);
    anim.set_progress(123_456);
    anim.tick(1_000 + 3_000_000);
    assert_eq!(anim.progress, 123_456);
    anim.tick(1_000 + 3_000_000 + 9_000_000);
    assert_eq!(anim.progress, 123_456);
}

#[test]
fn ticks_summing_to_a_period_return_to_start() {
    let mut anim = AnimationState::new(true, 3_000_000, 0);
    anim.set_progress(123_456);
    anim.tick(1_500_000);
    assert_eq!(anim.progress, 623_456);
    anim.tick(3_000_000);
    assert_eq!(anim.progress, 123_456);
}

#[test]
fn tick_with_zero_period_freezes_progress() {
    let mut anim = AnimationState::new(true, 0, 0);
    anim.set_progress(777_777);
    anim.tick(123_456_789);
    assert_eq!(anim.progress, 777_777);
    assert_eq!(anim.last_tick_us, 123_456_789);
}

#[test]
fn toggle_on_resets_reference_time() {
    let mut anim = AnimationState::new(false, 1_000_000, 0);
    anim.toggle_autorun(true, 50_000_000);
    assert!(anim.autorun);
    assert_eq!(anim.last_tick_us, 50_000_000);
    // toggling off keeps the reference
    anim.toggle_autorun(false, 60_000_000);
    assert!(!anim.autorun);
    assert_eq!(anim.last_tick_us, 50_000_000);
}

#[test]
fn manual_progress_override_wraps_a_full_turn() {
    let mut anim = AnimationState::new(true, 1_000_000, 0);
    anim.set_progress(250_000);
    assert_eq!(anim.progress, 250_000);
    anim.set_progress(1_000_000);
    assert_eq!(anim.progress, 0);
}

#[test]
fn set_period_does_not_advance_progress() {
    let mut anim = AnimationState::new(true, 1_000_000, 0);
    anim.set_progress(321_000);
    anim.set_period(9_000_000);
    assert_eq!(anim.progress, 321_000);
    assert_eq!(anim.period_us, 9_000_000);
}
