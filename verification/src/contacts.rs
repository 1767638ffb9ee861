//! What the detector makes of a whole contact with the wall.

use crate::detector::{Contact, Frame, Kick, Watch, MAX_KICK_WALL_FRAMES, POST_LEAVE_FRAMES};
use vstd::prelude::*;

verus! {

/// What is known once the first `m` of `frames` have been taken in.
pub open spec fn watch_at(start: Watch, frames: Seq<Frame>, m: nat) -> Watch
    decreases m,
{
    if m == 0 {
        start
    } else {
        watch_at(start, frames, (m - 1) as nat).after(frames[m - 1])
    }
}

/// The kick that the frame at index `i` settles.
pub open spec fn kick_at(start: Watch, frames: Seq<Frame>, i: nat) -> Option<Kick> {
    watch_at(start, frames, i).kick(frames[i as int])
}

/// `frames` are one contact: `n` frames on the wall, then the six off the wall that it
/// takes to settle it.
pub open spec fn one_contact(frames: Seq<Frame>, n: nat) -> bool {
    &&& 1 <= n <= u32::MAX
    &&& frames.len() == n + 6
    &&& forall|i: int| 0 <= i < frames.len() ==> (#[trigger] frames[i]).wallrunning == (i < n)
}

/// A jump is down on one of the first `m` frames.
pub open spec fn jump_within(frames: Seq<Frame>, m: int) -> bool {
    exists|i: int| 0 <= i < m && (#[trigger] frames[i]).jump_down
}

/// Crouch is down on one of the first `m` frames.
pub open spec fn crouch_within(frames: Seq<Frame>, m: int) -> bool {
    exists|i: int| 0 <= i < m && (#[trigger] frames[i]).crouch_down
}

/// The frame at index `i` is the first one with the jump down.
pub open spec fn is_first_jump(frames: Seq<Frame>, i: int) -> bool {
    &&& 0 <= i < frames.len()
    &&& frames[i].jump_down
    &&& !jump_within(frames, i)
}

/// The contact lasts long enough without a jump to count as a wall run: more than 25
/// frames.
pub open spec fn is_wall_run(frames: Seq<Frame>, n: nat) -> bool {
    n > 25 && !jump_within(frames, 26)
}

/// The wall frame at which the jump was first seen within the first `m` frames, `n` of
/// the frames being on the wall. A jump off the wall counts for the last wall frame.
spec fn jump_frame(frames: Seq<Frame>, n: nat, m: nat) -> nat
    decreases m,
{
    if m == 0 {
        0
    } else if jump_frame(frames, n, (m - 1) as nat) > 0 {
        jump_frame(frames, n, (m - 1) as nat)
    } else if !frames[m - 1].jump_down {
        0
    } else if m <= n {
        m
    } else {
        n
    }
}

proof fn lemma_jump_frame(frames: Seq<Frame>, n: nat, m: nat)
    requires
        n >= 1,
    ensures
        jump_frame(frames, n, m) <= n,
        jump_frame(frames, n, m) > 0 <==> jump_within(frames, m as int),
        forall|i: int|
            0 <= i < m && #[trigger] frames[i].jump_down && !jump_within(frames, i)
                ==> jump_frame(frames, n, m) == (if i < n {
                i + 1
            } else {
                n as int
            }),
    decreases m,
{
    if m > 0 {
        let p = (m - 1) as nat;
        lemma_jump_frame(frames, n, p);
        if jump_within(frames, m as int) && !jump_within(frames, p as int) {
            assert(frames[p as int].jump_down);
        }
        if frames[p as int].jump_down {
            assert(jump_within(frames, m as int));
        }
    }
}

/// The contact as it stands after the first `m` frames.
spec fn contact_after(start: Watch, frames: Seq<Frame>, n: nat, m: nat) -> Contact {
    Contact {
        last_wf: if m <= n {
            m as u32
        } else {
            n as u32
        },
        jump_first_wf: jump_frame(frames, n, m) as u32,
        crouch_seen: crouch_within(frames, m as int),
        incoming: start.prev_speed,
        outgoing: frames[m - 1].speed,
        on_wall: m <= n,
        post: if m <= n {
            0
        } else {
            (m - n - 1) as u32
        },
    }
}

/// The contact has been given up by the `m`th frame.
spec fn given_up(frames: Seq<Frame>, n: nat, m: nat) -> bool {
    is_wall_run(frames, n) && m > MAX_KICK_WALL_FRAMES
}

/// What is known in the course of a contact.
proof fn lemma_course(start: Watch, frames: Seq<Frame>, n: nat, m: nat)
    requires
        start.wall_frames == 0,
        one_contact(frames, n),
        1 <= m <= n + POST_LEAVE_FRAMES,
    ensures
        ({
            let w = watch_at(start, frames, m);
            &&& w.wall_frames == (if m <= n {
                m
            } else {
                0
            })
            &&& w.prev_speed == frames[m - 1].speed
            &&& given_up(frames, n, m) ==> w.contact is None
            &&& !given_up(frames, n, m) ==> w.contact == Some(contact_after(start, frames, n, m))
        }),
        kick_at(start, frames, (m - 1) as nat) is None,
    decreases m,
{
    let p = (m - 1) as nat;
    let frame = frames[p as int];
    lemma_jump_frame(frames, n, m);
    lemma_jump_frame(frames, n, p);
    assert(crouch_within(frames, m as int) <==> crouch_within(frames, p as int)
        || frame.crouch_down);
    if p == 0 {
        assert(watch_at(start, frames, 0) == start);
        assert(!jump_within(frames, 0) && !crouch_within(frames, 0));
        assert(watch_at(start, frames, 1) == start.after(frame));
    } else {
        lemma_course(start, frames, n, p);
        let w = watch_at(start, frames, p);
        assert(watch_at(start, frames, m) == w.after(frame));
        if m <= n {
            assert(w.wall_frames.wrapping_add(1) == m);
        }
        if given_up(frames, n, m) && !given_up(frames, n, p) {
            assert(m == MAX_KICK_WALL_FRAMES + 1);
        } else if !given_up(frames, n, m) && m <= n && m > MAX_KICK_WALL_FRAMES {
            assert(jump_within(frames, MAX_KICK_WALL_FRAMES + 1));
            assert(jump_within(frames, m as int));
        }
    }
}

/// A contact settles on the last of its frames, and on no other. It is a kick if and
/// only if the jump was down on one of the frames and the contact was not a wall run.
/// The kick tells the speed before the first frame and on the last one, whether crouch
/// was down on any frame, and the wall frame of the first jump, where a jump after
/// leaving counts for the last wall frame.
pub proof fn law_contact_settles(start: Watch, frames: Seq<Frame>, n: nat)
    requires
        start.wall_frames == 0,
        one_contact(frames, n),
    ensures
        forall|i: nat| i < frames.len() - 1 ==> (#[trigger] kick_at(start, frames, i)) is None,
        watch_at(start, frames, frames.len()).contact is None,
        ({
            let kick = kick_at(start, frames, (frames.len() - 1) as nat);
            &&& kick is Some <==> jump_within(frames, frames.len() as int) && !is_wall_run(
                frames,
                n,
            )
            &&& kick matches Some(k) ==> {
                &&& k.incoming == start.prev_speed
                &&& k.outgoing == frames.last().speed
                &&& k.crouch == crouch_within(frames, frames.len() as int)
                &&& forall|i: int| #[trigger]
                    is_first_jump(frames, i) ==> k.wall_frame == (if i < n {
                        i + 1
                    } else {
                        n as int
                    })
            }
        }),
{
    let m = frames.len();
    let p = (m - 1) as nat;
    assert forall|i: nat| i < p implies (#[trigger] kick_at(start, frames, i)) is None by {
        lemma_course(start, frames, n, i + 1);
    }
    lemma_course(start, frames, n, p);
    lemma_jump_frame(frames, n, m);
    lemma_jump_frame(frames, n, p);
    let w = watch_at(start, frames, p);
    let frame = frames[p as int];
    assert(watch_at(start, frames, m) == w.after(frame));
    assert(crouch_within(frames, m as int) <==> crouch_within(frames, p as int)
        || frame.crouch_down);
    if !given_up(frames, n, p) {
        lemma_jump_in_range(frames, n, m);
        assert forall|i: int| #[trigger] is_first_jump(frames, i) implies jump_frame(frames, n, m)
            == (if i < n {
            i + 1
        } else {
            n as int
        }) by {
            assert(frames[i].jump_down);
        }
    }
}

/// Touching the wall again starts over: a contact that is not settled yet is dropped
/// without a kick.
pub proof fn law_new_contact_starts_over(watch: Watch, frame: Frame)
    requires
        watch.wall_frames == 0,
        frame.wallrunning,
    ensures
        watch.kick(frame) is None,
        watch.after(frame) == (Watch {
            wall_frames: 1,
            prev_speed: frame.speed,
            contact: Some(
                Contact {
                    last_wf: 1,
                    jump_first_wf: if frame.jump_down {
                        1
                    } else {
                        0
                    },
                    crouch_seen: frame.crouch_down,
                    incoming: watch.prev_speed,
                    outgoing: frame.speed,
                    on_wall: true,
                    post: 0,
                },
            ),
        }),
{
}

/// Frames on the wall are counted from the last one off it, and the speed of the last
/// frame is remembered, whatever becomes of a contact.
pub proof fn law_frames_are_counted(watch: Watch, frame: Frame)
    ensures
        !frame.wallrunning ==> watch.after(frame).wall_frames == 0,
        frame.wallrunning && watch.wall_frames < u32::MAX ==> watch.after(frame).wall_frames
            == watch.wall_frames + 1,
        frame.wallrunning && watch.wall_frames == u32::MAX ==> watch.after(frame).wall_frames == 0,
        watch.after(frame).prev_speed == frame.speed,
{
}

/// Without a contact under way there is no kick, and only the first frame on the wall
/// opens a contact.
pub proof fn law_no_kick_without_contact(watch: Watch, frame: Frame)
    requires
        watch.contact is None,
    ensures
        watch.kick(frame) is None,
        watch.after(frame).contact is Some <==> frame.wallrunning && watch.wall_frames == 0,
{
}

/// A further frame of a contact keeps the speed before it, takes on the speed of the
/// frame, remembers crouch, and notes the wall frame of the jump where there was none yet:
/// this frame on the wall, the last one on it otherwise. On the wall there is no kick, and
/// the contact goes on unless this is a wall frame past the 25th without a jump. Off the
/// wall it goes on until the fifth frame after the first one off, and then comes to a kick
/// exactly where there was a jump.
pub proof fn law_contact_goes_on(watch: Watch, frame: Frame, c: Contact)
    requires
        watch.well_formed(),
        watch.contact == Some(c),
        !frame.wallrunning || watch.wall_frames != 0,
    ensures
        ({
            let last = if !frame.wallrunning {
                c.last_wf as int
            } else if watch.wall_frames < u32::MAX {
                watch.wall_frames + 1
            } else {
                0
            };
            let jump = if c.jump_first_wf > 0 {
                c.jump_first_wf as int
            } else if frame.jump_down {
                last
            } else {
                0
            };
            let over = !frame.wallrunning && !c.on_wall && c.post == 4;
            &&& watch.kick(frame) is Some <==> over && jump > 0
            &&& watch.kick(frame) matches Some(k) ==> {
                &&& k.incoming == c.incoming
                &&& k.outgoing == frame.speed
                &&& k.wall_frame == jump
                &&& k.crouch == (c.crouch_seen || frame.crouch_down)
            }
            &&& watch.after(frame).contact is None <==> over || frame.wallrunning && jump == 0
                && last > 25
            &&& watch.after(frame).contact matches Some(d) ==> {
                &&& d.last_wf == last
                &&& d.jump_first_wf == jump
                &&& d.crouch_seen == (c.crouch_seen || frame.crouch_down)
                &&& d.incoming == c.incoming
                &&& d.outgoing == frame.speed
                &&& d.on_wall == frame.wallrunning
                &&& frame.wallrunning ==> d.post == c.post
                &&& !frame.wallrunning && c.on_wall ==> d.post == 0
                &&& !frame.wallrunning && !c.on_wall ==> d.post == c.post + 1
            }
        }),
{
}

/// Unless the contact is a wall run, the jump is on a wall frame within the limit.
proof fn lemma_jump_in_range(frames: Seq<Frame>, n: nat, m: nat)
    requires
        n >= 1,
        !is_wall_run(frames, n),
    ensures
        jump_frame(frames, n, m) <= MAX_KICK_WALL_FRAMES + 1,
    decreases m,
{
    lemma_jump_frame(frames, n, m);
    if m > 0 {
        lemma_jump_in_range(frames, n, (m - 1) as nat);
        lemma_jump_frame(frames, n, (m - 1) as nat);
        if n > MAX_KICK_WALL_FRAMES {
            let i = choose|i: int|
                0 <= i < MAX_KICK_WALL_FRAMES + 1 && (#[trigger] frames[i]).jump_down;
            if m - 1 > i {
                assert(jump_within(frames, m - 1));
            }
        }
    }
}

} // verus!
