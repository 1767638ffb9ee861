use crouchkick::{Btn, Buffer, Decision, Edge, BUFFER_MS};

#[test]
fn crouch_then_jump_within_window_is_a_kick() {
    let mut b = Buffer::new();
    assert_eq!(b.on_event(Btn::Crouch, Edge::Press, 0), Decision::Hold);
    // jump 5ms later: let the held crouch press go, then pass the jump
    assert_eq!(
        b.on_event(Btn::Jump, Edge::Press, 5),
        Decision::FlushThenPass(Btn::Crouch, Edge::Press)
    );
    // nothing is left
    assert!(b.on_update(50).is_empty());
}

#[test]
fn jump_then_crouch_within_window_is_a_kick() {
    let mut b = Buffer::new();
    assert_eq!(b.on_event(Btn::Jump, Edge::Press, 100), Decision::Hold);
    assert_eq!(
        b.on_event(Btn::Crouch, Edge::Press, 103),
        Decision::FlushThenPass(Btn::Jump, Edge::Press)
    );
}

#[test]
fn lone_press_flushes_after_the_window() {
    let mut b = Buffer::new();
    assert_eq!(b.on_event(Btn::Jump, Edge::Press, 0), Decision::Hold);
    assert!(b.on_update(5).is_empty()); // still within the window
    assert_eq!(b.on_update(20), vec![(Btn::Jump, Edge::Press)]); // past the window
    assert!(b.on_update(40).is_empty()); // already gone
}

#[test]
fn second_press_outside_window_is_not_a_kick() {
    let mut b = Buffer::new();
    assert_eq!(b.on_event(Btn::Crouch, Edge::Press, 0), Decision::Hold);
    let _ = b.on_update(20); // the update lets the crouch press go
    // jump much later: held on its own, not a kick
    assert_eq!(b.on_event(Btn::Jump, Edge::Press, 100), Decision::Hold);
}

#[test]
fn releases_are_held_then_flushed() {
    let mut b = Buffer::new();
    assert_eq!(b.on_event(Btn::Jump, Edge::Release, 0), Decision::Hold);
    assert_eq!(b.on_update(20), vec![(Btn::Jump, Edge::Release)]);
}

#[test]
fn duplicate_hold_passes_through() {
    let mut b = Buffer::new();
    assert_eq!(b.on_event(Btn::Jump, Edge::Press, 0), Decision::Hold);
    // a second jump press while one is held passes
    assert_eq!(b.on_event(Btn::Jump, Edge::Press, 2), Decision::Pass);
}

#[test]
fn window_ends_with_its_last_millisecond() {
    let mut b = Buffer::default();
    assert_eq!(b.on_event(Btn::Crouch, Edge::Press, 10), Decision::Hold);
    assert!(b.on_update(10 + BUFFER_MS).is_empty());
    assert_eq!(
        b.on_event(Btn::Jump, Edge::Press, 10 + BUFFER_MS),
        Decision::FlushThenPass(Btn::Crouch, Edge::Press)
    );

    let mut b = Buffer::new();
    assert_eq!(b.on_event(Btn::Crouch, Edge::Press, 10), Decision::Hold);
    assert_eq!(b.on_event(Btn::Jump, Edge::Press, 19), Decision::Hold);
    assert_eq!(b.on_update(19), vec![(Btn::Crouch, Edge::Press)]);
    assert_eq!(b.on_update(28), vec![(Btn::Jump, Edge::Press)]);
}

#[test]
fn clock_that_goes_back_counts_as_no_time() {
    let mut b = Buffer::new();
    assert_eq!(b.on_event(Btn::Crouch, Edge::Press, 1000), Decision::Hold);
    assert!(b.on_update(0).is_empty());
    assert_eq!(
        b.on_event(Btn::Jump, Edge::Press, 0),
        Decision::FlushThenPass(Btn::Crouch, Edge::Press)
    );
}

#[test]
fn releases_never_kick() {
    let mut b = Buffer::new();
    assert_eq!(b.on_event(Btn::Crouch, Edge::Press, 0), Decision::Hold);
    assert_eq!(b.on_event(Btn::Jump, Edge::Release, 1), Decision::Hold);
    assert_eq!(b.on_event(Btn::Crouch, Edge::Release, 2), Decision::Hold);
    // the press is still there for a kick
    assert_eq!(
        b.on_event(Btn::Jump, Edge::Press, 3),
        Decision::FlushThenPass(Btn::Crouch, Edge::Press)
    );
}

#[test]
fn update_lets_everything_due_out_in_order() {
    let mut b = Buffer::new();
    assert_eq!(b.on_event(Btn::Crouch, Edge::Press, 0), Decision::Hold);
    assert_eq!(b.on_event(Btn::Crouch, Edge::Release, 1), Decision::Hold);
    assert_eq!(b.on_event(Btn::Jump, Edge::Release, 2), Decision::Hold);
    assert_eq!(b.on_event(Btn::Jump, Edge::Press, 9), Decision::Hold);
    assert_eq!(
        b.on_update(100),
        vec![
            (Btn::Jump, Edge::Release),
            (Btn::Jump, Edge::Press),
            (Btn::Crouch, Edge::Press),
            (Btn::Crouch, Edge::Release),
        ]
    );
    assert!(b.on_update(u64::MAX).is_empty());
}

#[test]
fn release_before_press_stays_before_press() {
    let mut b = Buffer::new();
    assert_eq!(b.on_event(Btn::Jump, Edge::Release, 0), Decision::Hold);
    assert_eq!(b.on_event(Btn::Jump, Edge::Press, 5), Decision::Hold);
    assert_eq!(
        b.on_update(20),
        vec![(Btn::Jump, Edge::Release), (Btn::Jump, Edge::Press)]
    );
}

#[test]
fn order_survives_within_one_millisecond() {
    let mut b = Buffer::new();
    assert_eq!(b.on_event(Btn::Crouch, Edge::Release, 7), Decision::Hold);
    assert_eq!(b.on_event(Btn::Crouch, Edge::Press, 7), Decision::Hold);
    assert_eq!(
        b.on_update(16),
        vec![(Btn::Crouch, Edge::Release), (Btn::Crouch, Edge::Press)]
    );
    assert_eq!(b.on_event(Btn::Crouch, Edge::Press, 20), Decision::Hold);
    assert_eq!(b.on_event(Btn::Crouch, Edge::Release, 20), Decision::Hold);
    assert_eq!(
        b.on_update(29),
        vec![(Btn::Crouch, Edge::Press), (Btn::Crouch, Edge::Release)]
    );
}

#[test]
fn press_and_release_keep_their_order() {
    let mut b = Buffer::new();
    assert_eq!(b.on_event(Btn::Jump, Edge::Press, 0), Decision::Hold);
    assert_eq!(b.on_event(Btn::Jump, Edge::Release, 4), Decision::Hold);
    assert_eq!(b.on_update(10), vec![(Btn::Jump, Edge::Press)]);
    assert_eq!(b.on_update(13), vec![(Btn::Jump, Edge::Release)]);
}

#[test]
fn every_event_goes_out_once() {
    let mut b = Buffer::new();
    let mut received = 0;
    let mut emitted = 0;
    for t in 0..200u64 {
        let btn = if t % 3 == 0 { Btn::Jump } else { Btn::Crouch };
        let edge = if t % 5 < 3 { Edge::Press } else { Edge::Release };
        received += 1;
        emitted += match b.on_event(btn, edge, t * 2) {
            Decision::Pass => 1,
            Decision::Hold => 0,
            Decision::FlushThenPass(_, _) => 2,
        };
        if t % 4 == 0 {
            emitted += b.on_update(t * 2 + 1).len();
        }
    }
    emitted += b.on_update(10_000).len();
    assert_eq!(received, emitted);
}

#[test]
fn buttons_and_edges_have_their_places() {
    assert_eq!(Btn::Jump.idx(), 0);
    assert_eq!(Btn::Crouch.idx(), 1);
    assert_eq!(Edge::Press.idx(), 0);
    assert_eq!(Edge::Release.idx(), 1);
    assert_eq!(Btn::Jump.other(), Btn::Crouch);
    assert_eq!(Btn::Crouch.other(), Btn::Jump);
}
