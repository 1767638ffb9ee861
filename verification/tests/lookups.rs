use crouchkick::{
    decode_handle, entity_in_entry, entry_address, find_required_binds, should_warn, summary_due,
    Actions, BindOutcome, BindRetry, EntityRef, Feedback, FeedbackTrial, StateLog,
    BUTTON_CODE_SCAN_LIMIT,
};

const NEITHER: Actions = Actions { jump: false, crouch: false, toggle_crouch: false };

#[test]
fn lowest_codes_are_found() {
    let mut table = [NEITHER; BUTTON_CODE_SCAN_LIMIT];
    assert_eq!(find_required_binds(&table), None);
    table[65].jump = true;
    assert_eq!(find_required_binds(&table), None);
    table[255].crouch = true;
    assert_eq!(find_required_binds(&table), Some((65, 255)));
    table[13].toggle_crouch = true;
    table[200].jump = true;
    assert_eq!(find_required_binds(&table), Some((65, 13)));
    table[0].jump = true;
    table[0].crouch = true;
    assert_eq!(find_required_binds(&table), Some((0, 0)));
    table[65].jump = false;
    table[200].jump = false;
    table[0].jump = false;
    assert_eq!(find_required_binds(&table), None);
}

#[test]
fn attempts_slow_down() {
    let mut r = BindRetry::new();
    assert_eq!(r.poll(0, false), None);
    let mut tick = 5;
    for n in 1..20 {
        assert_eq!(r.poll(tick, true), Some(n));
        assert_eq!(r.poll(tick + 63, true), None);
        tick += 64;
    }
    assert_eq!(r.poll(tick, true), Some(20));
    assert_eq!(r.poll(tick + 3599, true), None);
    assert_eq!(r.poll(tick + 3600, true), Some(21));
}

#[test]
fn attempts_end_once_the_bindings_are_there() {
    let mut r = BindRetry::new();
    assert_eq!(r.poll(0, true), Some(1));
    assert_eq!(r.conclude(1, None), BindOutcome::NotReady(true));
    let mut table = [NEITHER; BUTTON_CODE_SCAN_LIMIT];
    assert_eq!(r.poll(64, true), Some(2));
    assert_eq!(r.conclude(2, Some(&table)), BindOutcome::Missing(true));
    assert_eq!(r.conclude(6, Some(&table)), BindOutcome::Missing(false));
    assert!(!r.ready);
    table[3].jump = true;
    table[4].toggle_crouch = true;
    assert_eq!(r.poll(128, true), Some(3));
    assert_eq!(r.conclude(3, Some(&table)), BindOutcome::Resolved(3, 4));
    assert!(r.ready);
    assert_eq!(r.poll(u64::MAX, true), None);
}

#[test]
fn warnings_thin_out() {
    assert!(should_warn(1) && should_warn(5));
    assert!(!should_warn(6) && !should_warn(11));
    assert!(should_warn(10) && should_warn(200));
}

#[test]
fn handles_are_decoded() {
    assert_eq!(decode_handle(0xFFFF_FFFF), None);
    assert_eq!(decode_handle(0x0001_4000), None);
    assert_eq!(decode_handle(0x0001_3FFF), Some(EntityRef { index: 0x3FFF, serial: 1 }));
    assert_eq!(decode_handle(0xABCD_0002), Some(EntityRef { index: 2, serial: 0xABCD }));
    assert_eq!(entry_address(0, 2), None);
    assert_eq!(entry_address(0x1000, 2), Some(0x1040));
    let e = EntityRef { index: 2, serial: 0xABCD };
    assert_eq!(entity_in_entry(e, 0xABCD, 0x5000), Some(0x5000));
    assert_eq!(entity_in_entry(e, 0xABCE, 0x5000), None);
    assert_eq!(entity_in_entry(e, 0xABCD, 0), None);
}

#[test]
fn readout_is_tried_once() {
    let mut t = FeedbackTrial::new();
    assert_eq!(t.on_frame(false), None);
    for _ in 0..119 {
        assert_eq!(t.on_frame(true), None);
    }
    assert_eq!(t.on_frame(true), Some(Feedback { gain: 120, wall_frame: 1, crouch: true }));
    for _ in 0..500 {
        assert_eq!(t.on_frame(true), None);
    }
}

#[test]
fn changes_of_state_are_noticed() {
    let mut l = StateLog::new();
    assert!(!l.observe(false, false, false));
    assert!(l.observe(true, false, false));
    assert!(!l.observe(true, false, false));
    assert!(l.observe(true, true, true));
    assert!(summary_due(0) && summary_due(1200) && !summary_due(601));
}
