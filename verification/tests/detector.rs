use crouchkick::{Detector, Frame, Kick};

fn frame(wallrunning: bool, jump_down: bool, crouch_down: bool, speed: f32) -> Frame {
    Frame { wallrunning, jump_down, crouch_down, speed: speed.to_bits() }
}

/// Takes in frames off the wall until the contact settles, and returns the last outcome.
fn settle(d: &mut Detector, jump_down: bool, speed: f32) -> Option<Kick> {
    for _ in 0..5 {
        assert_eq!(d.on_frame(frame(false, jump_down, false, speed)), None);
    }
    d.on_frame(frame(false, jump_down, false, speed))
}

#[test]
fn jump_on_the_first_frame_is_a_kick() {
    let mut d = Detector::new();
    assert_eq!(d.on_frame(frame(false, false, false, 400.0)), None);
    assert_eq!(d.on_frame(frame(true, true, true, 410.0)), None);
    assert_eq!(d.wall_frames(), 1);
    assert_eq!(
        settle(&mut d, false, 520.5),
        Some(Kick {
            incoming: 400.0f32.to_bits(),
            outgoing: 520.5f32.to_bits(),
            wall_frame: 1,
            crouch: true,
        })
    );
    assert_eq!(d.wall_frames(), 0);
    assert_eq!(settle(&mut d, true, 1.0), None);
}

#[test]
fn jump_after_leaving_counts_for_the_last_wall_frame() {
    let mut d = Detector::new();
    for _ in 0..3 {
        assert_eq!(d.on_frame(frame(true, false, false, 10.0)), None);
    }
    let kick = settle(&mut d, true, 20.0).unwrap();
    assert_eq!(kick.wall_frame, 3);
    assert_eq!(kick.incoming, 0);
    assert!(!kick.crouch);
}

#[test]
fn contact_without_a_jump_is_no_kick() {
    let mut d = Detector::new();
    for _ in 0..10 {
        assert_eq!(d.on_frame(frame(true, false, true, 10.0)), None);
    }
    assert_eq!(settle(&mut d, false, 20.0), None);
}

#[test]
fn long_contact_without_a_jump_is_a_wall_run() {
    let mut d = Detector::new();
    for _ in 0..26 {
        assert_eq!(d.on_frame(frame(true, false, false, 10.0)), None);
    }
    // too late now
    assert_eq!(d.on_frame(frame(true, true, true, 10.0)), None);
    assert_eq!(settle(&mut d, true, 20.0), None);

    let mut d = Detector::new();
    for _ in 0..25 {
        assert_eq!(d.on_frame(frame(true, false, false, 10.0)), None);
    }
    // just in time
    assert_eq!(d.on_frame(frame(true, true, false, 10.0)), None);
    for _ in 0..40 {
        assert_eq!(d.on_frame(frame(true, false, false, 10.0)), None);
    }
    assert_eq!(settle(&mut d, false, 20.0).unwrap().wall_frame, 26);
}

#[test]
fn touching_the_wall_again_starts_over() {
    let mut d = Detector::new();
    assert_eq!(d.on_frame(frame(true, true, true, 10.0)), None);
    assert_eq!(d.on_frame(frame(false, false, false, 30.0)), None);
    assert_eq!(d.on_frame(frame(true, false, false, 35.0)), None);
    assert_eq!(d.on_frame(frame(true, true, false, 36.0)), None);
    assert_eq!(
        settle(&mut d, false, 50.0),
        Some(Kick {
            incoming: 30.0f32.to_bits(),
            outgoing: 50.0f32.to_bits(),
            wall_frame: 2,
            crouch: false,
        })
    );
}
