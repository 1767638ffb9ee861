//! Detects kicks from the wall by watching the player frame by frame.
//!
//! A kick redirects the player's speed rather than adding to it, so what is reported
//! is the speed before the contact and the speed after it. Speeds are carried as the
//! bit patterns of `f32` values: the detector hands them on and never looks inside.

use vstd::prelude::*;

verus! {

/// How many frames are still captured after the first frame off the wall. This lets
/// the speed settle, and catches a crouch or jump that lands just after.
pub const POST_LEAVE_FRAMES: u32 = 5;

/// A kick's jump lands early in the contact. More frames than this on the wall without
/// a jump make it a wall run.
pub const MAX_KICK_WALL_FRAMES: u32 = 25;

/// What one frame shows of the player.
#[derive(Clone, Copy, PartialEq, Eq, Debug, Structural)]
pub struct Frame {
    pub wallrunning: bool,
    pub jump_down: bool,
    pub crouch_down: bool,
    /// The horizontal speed, as a bit pattern.
    pub speed: u32,
}

/// A contact with the wall, from its first frame until it is resolved or abandoned.
#[derive(Clone, Copy, PartialEq, Eq, Debug, Structural)]
pub struct Contact {
    /// The number of the last frame on the wall, counted from 1.
    pub last_wf: u32,
    /// The number of the wall frame at which the jump was first seen, 0 before that.
    pub jump_first_wf: u32,
    /// Whether crouch was seen.
    pub crouch_seen: bool,
    /// The speed on the frame before the contact.
    pub incoming: u32,
    /// The speed on the last frame.
    pub outgoing: u32,
    /// Whether the player is still on the wall.
    pub on_wall: bool,
    /// How many frames have passed since the first one off the wall.
    pub post: u32,
}

/// A detected kick.
#[derive(Clone, Copy, PartialEq, Eq, Debug, Structural)]
pub struct Kick {
    /// The speed on the frame before the contact.
    pub incoming: u32,
    /// The speed on the frame that settled the kick.
    pub outgoing: u32,
    /// The wall frame at which the jump landed, 1 being the first.
    pub wall_frame: i32,
    /// Whether crouch was down at any point.
    pub crouch: bool,
}

impl Contact {
    /// A contact on its first frame, `before` being the speed on the frame before.
    pub open spec fn opened(frame: Frame, before: u32) -> Contact {
        Contact {
            last_wf: 1,
            jump_first_wf: if frame.jump_down {
                1
            } else {
                0
            },
            crouch_seen: frame.crouch_down,
            incoming: before,
            outgoing: frame.speed,
            on_wall: true,
            post: 0,
        }
    }

    /// The contact one frame on, `wf` being the number of that frame if it is still on
    /// the wall.
    pub open spec fn advanced(self, frame: Frame, wf: u32) -> Contact {
        let last_wf = if frame.wallrunning {
            wf
        } else {
            self.last_wf
        };
        Contact {
            last_wf,
            jump_first_wf: if frame.jump_down && self.jump_first_wf == 0 {
                last_wf
            } else {
                self.jump_first_wf
            },
            crouch_seen: self.crouch_seen || frame.crouch_down,
            incoming: self.incoming,
            outgoing: frame.speed,
            on_wall: frame.wallrunning,
            post: if frame.wallrunning {
                self.post
            } else if self.on_wall {
                0
            } else {
                (self.post + 1) as u32
            },
        }
    }

    /// A wall run rather than a kick: long on the wall, and no jump yet.
    pub open spec fn is_wall_run(self) -> bool {
        self.on_wall && self.jump_first_wf == 0 && self.last_wf > MAX_KICK_WALL_FRAMES
    }

    /// All frames that belong to the contact have been captured.
    pub open spec fn is_settled(self) -> bool {
        !self.on_wall && self.post >= POST_LEAVE_FRAMES
    }

    /// What a settled contact comes to: a kick if there was a jump.
    pub open spec fn outcome(self) -> Option<Kick> {
        if self.jump_first_wf > 0 {
            Some(
                Kick {
                    incoming: self.incoming,
                    outgoing: self.outgoing,
                    wall_frame: self.jump_first_wf as i32,
                    crouch: self.crouch_seen,
                },
            )
        } else {
            None
        }
    }
}

/// What a detector knows between frames.
pub ghost struct Watch {
    /// How many frames in a row have been on the wall, modulo the range of `u32`.
    pub wall_frames: u32,
    /// The speed on the last frame.
    pub prev_speed: u32,
    /// The contact that is under way.
    pub contact: Option<Contact>,
}

impl Watch {
    /// The number of this frame on the wall, 0 if it is not on the wall.
    pub open spec fn wall_frame(self, frame: Frame) -> u32 {
        if frame.wallrunning {
            self.wall_frames.wrapping_add(1)
        } else {
            0
        }
    }

    /// The contact that this frame opens or belongs to.
    pub open spec fn current(self, frame: Frame) -> Option<Contact> {
        let wf = self.wall_frame(frame);
        if frame.wallrunning && wf == 1 {
            Some(Contact::opened(frame, self.prev_speed))
        } else {
            match self.contact {
                Some(c) => Some(c.advanced(frame, wf)),
                None => None,
            }
        }
    }

    /// What is known after this frame. A contact that has turned into a wall run, or is
    /// settled, is dropped.
    pub open spec fn after(self, frame: Frame) -> Watch {
        Watch {
            wall_frames: self.wall_frame(frame),
            prev_speed: frame.speed,
            contact: match self.current(frame) {
                Some(c) if c.is_wall_run() || c.is_settled() => None,
                c => c,
            },
        }
    }

    /// The kick that this frame settles.
    pub open spec fn kick(self, frame: Frame) -> Option<Kick> {
        match self.current(frame) {
            Some(c) if c.is_settled() => c.outcome(),
            _ => None,
        }
    }

    /// A contact agrees with the frame count, has seen its jump by the first frame past
    /// the limit or is not past it, and is not settled.
    pub open spec fn well_formed(self) -> bool {
        match self.contact {
            Some(c) => {
                &&& c.on_wall ==> c.last_wf == self.wall_frames
                &&& !c.on_wall ==> self.wall_frames == 0
                &&& c.jump_first_wf == 0 ==> 1 <= c.last_wf <= MAX_KICK_WALL_FRAMES
                &&& c.jump_first_wf <= MAX_KICK_WALL_FRAMES + 1
                &&& c.post < POST_LEAVE_FRAMES
            },
            None => true,
        }
    }
}

/// Watches the player, and reports kicks.
pub struct Detector {
    wall_frames: u32,
    prev_speed: u32,
    contact: Option<Contact>,
}

impl View for Detector {
    type V = Watch;

    closed spec fn view(&self) -> Watch {
        Watch {
            wall_frames: self.wall_frames,
            prev_speed: self.prev_speed,
            contact: self.contact,
        }
    }
}

impl Detector {
    /// A detector that has seen nothing yet. The bit pattern 0 is that of speed zero.
    pub fn new() -> (d: Self)
        ensures
            d@ == (Watch { wall_frames: 0, prev_speed: 0, contact: None }),
            d@.well_formed(),
    {
        Detector { wall_frames: 0, prev_speed: 0, contact: None }
    }

    /// The number of the last frame on the wall, 0 off the wall.
    pub fn wall_frames(&self) -> (n: u32)
        ensures
            n == self@.wall_frames,
    {
        self.wall_frames
    }

    /// Takes in one frame, and returns the kick that it settles.
    pub fn on_frame(&mut self, frame: Frame) -> (kick: Option<Kick>)
        requires
            old(self)@.well_formed(),
        ensures
            kick == old(self)@.kick(frame),
            final(self)@ == old(self)@.after(frame),
            final(self)@.well_formed(),
            kick matches Some(k) ==> 1 <= k.wall_frame <= MAX_KICK_WALL_FRAMES + 1,
            kick matches Some(k) ==> !frame.wallrunning && k.outgoing == frame.speed,
            final(self)@.prev_speed == frame.speed,
            !frame.wallrunning ==> final(self)@.wall_frames == 0,
    {
        let wf: u32 = if frame.wallrunning {
            self.wall_frames.wrapping_add(1)
        } else {
            0
        };
        self.wall_frames = wf;
        let prev: u32 = self.prev_speed;
        self.prev_speed = frame.speed;
        if frame.wallrunning && wf == 1 {
            self.contact = Some(
                Contact {
                    last_wf: 1,
                    jump_first_wf: if frame.jump_down {
                        1
                    } else {
                        0
                    },
                    crouch_seen: frame.crouch_down,
                    incoming: prev,
                    outgoing: frame.speed,
                    on_wall: true,
                    post: 0,
                },
            );
            return None;
        }
        let mut c = match self.contact {
            Some(c) => c,
            None => return None,
        };
        if frame.wallrunning {
            c.last_wf = wf;
            c.on_wall = true;
        } else if c.on_wall {
            c.on_wall = false;
            c.post = 0;
        } else {
            c.post = c.post + 1;
        }
        if frame.jump_down && c.jump_first_wf == 0 {
            c.jump_first_wf = c.last_wf;
        }
        c.crouch_seen = c.crouch_seen || frame.crouch_down;
        c.outgoing = frame.speed;
        if c.on_wall && c.jump_first_wf == 0 && wf > MAX_KICK_WALL_FRAMES {
            self.contact = None;
            None
        } else if !c.on_wall && c.post >= POST_LEAVE_FRAMES {
            self.contact = None;
            if c.jump_first_wf > 0 {
                Some(
                    Kick {
                        incoming: c.incoming,
                        outgoing: c.outgoing,
                        wall_frame: c.jump_first_wf as i32,
                        crouch: c.crouch_seen,
                    },
                )
            } else {
                None
            }
        } else {
            self.contact = Some(c);
            None
        }
    }
}

} // verus!
