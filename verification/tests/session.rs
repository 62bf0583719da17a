use linkage::session::{Message, Model, Schematic, PATH_TABULATION_SIZE};
use linkage::mechanism::solve;

#[test]
fn schematic_setters_retabulate() {
    let mut schematic = Schematic::new();
    assert_eq!(schematic.m_path.len(), PATH_TABULATION_SIZE);
    let before = schematic.m_path[0];
    schematic.set_oa(500_000);
    assert_eq!(schematic.params.oa, 500_000);
    let after = schematic.m_path[0];
    assert_ne!(before, after);
    let expected = solve(&schematic.params, 0).map(|pose| pose.m);
    assert_eq!(after, expected);
}

#[test]
fn trace_covers_the_progress_fraction_of_the_table() {
    let schematic = Schematic::new();
    assert_eq!(schematic.trace_len(0), 0);
    assert_eq!(schematic.trace_len(500_000), 250);
    assert_eq!(schematic.trace_len(999_999), 499);
}

#[test]
fn update_routes_each_message() {
    let mut model = Model::new(0);
    model.update(Message::OaChange(2_000_000));
    assert_eq!(model.schematic.params.oa, 2_000_000);
    model.update(Message::AbChange(3_000_000));
    assert_eq!(model.schematic.params.ab, 3_000_000);
    model.update(Message::AmPerAbChange(250_000));
    assert_eq!(model.schematic.params.am_per_ab, 250_000);
    model.update(Message::PeriodChange(4_000_000));
    assert_eq!(model.anim.period_us, 4_000_000);
    model.update(Message::Progress(600_000));
    assert_eq!(model.anim.progress, 600_000);
    model.update(Message::TracePathToggle(true));
    assert!(model.schematic.trace_path);
    model.update(Message::AutorunToggle { autorun: true, now_us: 10_000_000 });
    assert_eq!(model.anim.last_tick_us, 10_000_000);
    model.update(Message::Tick(11_000_000));
    // 0.6 plus a quarter of the 4 s period
    assert_eq!(model.anim.progress, 850_000);
    assert_eq!(model.anim.last_tick_us, 11_000_000);
}

#[test]
fn tick_with_zero_period_leaves_progress_alone() {
    let mut model = Model::new(0);
    model.update(Message::Progress(300_000));
    model.update(Message::PeriodChange(0));
    model.update(Message::Tick(123_456));
    assert_eq!(model.anim.progress, 300_000);
    model.update(Message::Tick(99_999_999));
    assert_eq!(model.anim.progress, 300_000);
}

#[test]
fn valid_edit_feeds_the_parameter() {
    let mut model = Model::new(0);
    model.edit_oa(String::from("2.5"));
    assert!(model.oa_input.valid);
    assert_eq!(model.schematic.params.oa, 2_500_000);
    model.edit_ab(String::from("0.75"));
    assert_eq!(model.schematic.params.ab, 750_000);
    model.edit_period(String::from("1.5"));
    assert_eq!(model.anim.period_us, 1_500_000);
}

#[test]
fn invalid_edit_keeps_the_last_good_value() {
    let mut model = Model::new(0);
    model.edit_oa(String::from("2"));
    assert_eq!(model.schematic.params.oa, 2_000_000);
    model.edit_oa(String::from("2x"));
    assert!(!model.oa_input.valid);
    assert_eq!(model.oa_input.parsed, None);
    assert_eq!(model.oa_input.buffer, "2x");
    assert_eq!(model.schematic.params.oa, 2_000_000);
    // same invalid text twice: still invalid, parameter still untouched
    model.edit_oa(String::from("2x"));
    assert!(!model.oa_input.valid);
    assert_eq!(model.schematic.params.oa, 2_000_000);
}

#[test]
fn out_of_range_edit_is_not_applied() {
    let mut model = Model::new(0);
    model.edit_oa(String::from("-1"));
    assert!(model.oa_input.valid);
    assert_eq!(model.schematic.params.oa, 1_000_000);
    model.edit_period(String::from("-3"));
    assert_eq!(model.anim.period_us, 3_000_000);
}

#[test]
fn pose_follows_current_progress() {
    let mut model = Model::new(0);
    let pose = model.pose().unwrap();
    assert_eq!(pose.m.x, 1_500_000);
    model.update(Message::Progress(500_000));
    let pose = model.pose().unwrap();
    assert_eq!(pose.m.x, -1_500_000);
    model.update(Message::Progress(250_000));
    assert!(model.pose().is_none());
}
