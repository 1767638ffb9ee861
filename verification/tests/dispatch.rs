use crouchkick::{classify, edge_of, Act, Actions, Btn, Dispatcher, Edge, RawEvent};

const JUMP: Actions = Actions { jump: true, crouch: false, toggle_crouch: false };
const CROUCH: Actions = Actions { jump: false, crouch: true, toggle_crouch: false };
const TOGGLE: Actions = Actions { jump: false, crouch: false, toggle_crouch: true };
const NEITHER: Actions = Actions { jump: false, crouch: false, toggle_crouch: false };

fn event(n_type: i32, scan: i32) -> RawEvent {
    RawEvent { ctx: 7, n_type, n_tick: 11, scan, virt: 13, data3: 17 }
}

#[test]
fn events_are_classified_by_action() {
    assert_eq!(edge_of(0), Some(Edge::Press));
    assert_eq!(edge_of(1), Some(Edge::Release));
    assert_eq!(edge_of(2), None);
    assert_eq!(edge_of(-1), None);
    assert_eq!(classify(JUMP, 0), Some((Btn::Jump, Edge::Press)));
    assert_eq!(classify(CROUCH, 1), Some((Btn::Crouch, Edge::Release)));
    assert_eq!(classify(TOGGLE, 0), Some((Btn::Crouch, Edge::Press)));
    assert_eq!(classify(NEITHER, 0), None);
    assert_eq!(classify(JUMP, 3), None);
    let both = Actions { jump: true, crouch: true, toggle_crouch: true };
    assert_eq!(classify(both, 0), Some((Btn::Jump, Edge::Press)));
}

#[test]
fn kick_posts_the_held_press_first() {
    let mut d = Dispatcher::new();
    assert_eq!(d.post_event(event(0, 65), JUMP, 100, 99), Act::Swallow);
    assert_eq!(
        d.post_event(event(0, 79), TOGGLE, 108, 99),
        Act::FlushThenPass(event(0, 65), RawEvent { ctx: 99, ..event(0, 79) })
    );
    assert!(d.flush(1000).is_empty());
}

#[test]
fn repeated_press_passes_under_the_other_context() {
    let mut d = Dispatcher::new();
    assert_eq!(d.post_event(event(0, 79), CROUCH, 0, 99), Act::Swallow);
    assert_eq!(
        d.post_event(event(0, 80), CROUCH, 1, 99),
        Act::Pass(RawEvent { ctx: 99, ..event(0, 80) })
    );
    assert_eq!(d.flush(9), vec![event(0, 79)]);
}

#[test]
fn lone_events_are_flushed_unchanged() {
    let mut d = Dispatcher::new();
    assert_eq!(d.post_event(event(0, 65), JUMP, 0, 99), Act::Swallow);
    assert_eq!(d.post_event(event(1, 65), JUMP, 3, 99), Act::Swallow);
    assert!(d.flush(8).is_empty());
    assert_eq!(d.flush(50), vec![event(0, 65), event(1, 65)]);
    assert!(d.flush(60).is_empty());
}

#[test]
fn other_events_go_through_untouched() {
    let mut d = Dispatcher::new();
    assert_eq!(d.post_event(event(0, 30), NEITHER, 0, 99), Act::Pass(event(0, 30)));
    assert_eq!(d.post_event(event(5, 65), JUMP, 0, 99), Act::Pass(event(5, 65)));
    assert!(d.flush(50).is_empty());
}

#[test]
fn nothing_is_buffered_while_switched_off() {
    let mut d = Dispatcher::new();
    assert_eq!(d.post_event(event(0, 65), JUMP, 0, 99), Act::Swallow);
    d.set_options(0);
    assert_eq!(d.post_event(event(0, 79), CROUCH, 1, 99), Act::Pass(event(0, 79)));
    // what was held before still goes out
    assert_eq!(d.flush(20), vec![event(0, 65)]);
    d.set_options(-3);
    assert_eq!(d.post_event(event(0, 79), CROUCH, 30, 99), Act::Swallow);
}

#[test]
fn kick_waits_through_flushes_and_other_events() {
    let mut d = Dispatcher::new();
    assert_eq!(d.post_event(event(0, 79), CROUCH, 100, 99), Act::Swallow);
    assert!(d.flush(103).is_empty());
    assert_eq!(d.post_event(event(0, 30), NEITHER, 104, 99), Act::Pass(event(0, 30)));
    assert_eq!(d.post_event(event(1, 65), JUMP, 105, 99), Act::Swallow);
    assert_eq!(
        d.post_event(event(0, 80), CROUCH, 105, 99),
        Act::Pass(RawEvent { ctx: 99, ..event(0, 80) })
    );
    d.set_options(0);
    d.set_options(1);
    assert!(d.flush(108).is_empty());
    assert_eq!(
        d.post_event(event(0, 65), JUMP, 108, 99),
        Act::FlushThenPass(event(0, 79), RawEvent { ctx: 99, ..event(0, 65) })
    );
}

#[test]
fn raw_release_and_press_keep_their_order() {
    let mut d = Dispatcher::new();
    assert_eq!(d.post_event(event(1, 65), JUMP, 0, 99), Act::Swallow);
    assert_eq!(d.post_event(event(0, 65), JUMP, 5, 99), Act::Swallow);
    assert_eq!(d.post_event(event(0, 79), CROUCH, 50, 99), Act::Swallow);
    assert_eq!(d.post_event(event(1, 79), CROUCH, 51, 99), Act::Swallow);
    assert_eq!(
        d.flush(100),
        vec![event(1, 65), event(0, 65), event(0, 79), event(1, 79)]
    );
}
