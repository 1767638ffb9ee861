//! What is logged about the player's state, and a trial of the readout.

use vstd::prelude::*;

verus! {

/// How many frames with a player pass before the readout is tried out.
pub const FEEDBACK_TRIAL_FRAMES: u32 = 120;

/// How many ticks lie between two summaries of the state.
pub const SUMMARY_INTERVAL: u64 = 600;

/// What is shown on the readout.
#[derive(Clone, Copy, PartialEq, Eq, Debug, Structural)]
pub struct Feedback {
    pub gain: i32,
    pub wall_frame: i32,
    pub crouch: bool,
}

/// What the trial shows.
pub open spec fn spec_trial_feedback() -> Feedback {
    Feedback { gain: 120, wall_frame: 1, crouch: true }
}

/// Tries the readout out once, some time after a player has appeared.
#[derive(Clone, Copy, PartialEq, Eq, Debug, Structural)]
pub struct FeedbackTrial {
    /// The trial has been made.
    pub sent: bool,
    /// How many frames with a player have passed, up to the trial.
    pub frames: u32,
}

impl FeedbackTrial {
    /// The trial is made as soon as enough frames have passed.
    pub open spec fn well_formed(self) -> bool {
        self.sent <==> self.frames >= FEEDBACK_TRIAL_FRAMES
    }

    /// The trial after a frame.
    pub open spec fn after(self, player_available: bool) -> FeedbackTrial {
        if player_available && !self.sent {
            FeedbackTrial {
                sent: self.frames + 1 >= FEEDBACK_TRIAL_FRAMES,
                frames: (self.frames + 1) as u32,
            }
        } else {
            self
        }
    }

    /// No frame yet.
    pub fn new() -> (t: Self)
        ensures
            t == (FeedbackTrial { sent: false, frames: 0 }),
            t.well_formed(),
    {
        FeedbackTrial { sent: false, frames: 0 }
    }

    /// Counts a frame, and returns what to show if this is the frame of the trial.
    pub fn on_frame(&mut self, player_available: bool) -> (r: Option<Feedback>)
        requires
            old(self).well_formed(),
        ensures
            final(self).well_formed(),
            *final(self) == old(self).after(player_available),
            final(self).frames == old(self).frames + (if player_available && !old(self).sent {
                1int
            } else {
                0int
            }),
            r == (if final(self).sent && !old(self).sent {
                Some(spec_trial_feedback())
            } else {
                None
            }),
            r is Some <==> player_available && old(self).frames == 119,
            r matches Some(f) ==> f.gain == 120 && f.wall_frame == 1 && f.crouch,
            final(self).sent <==> old(self).sent || r is Some,
    {
        if player_available && !self.sent {
            self.frames = self.frames + 1;
            if self.frames >= FEEDBACK_TRIAL_FRAMES {
                self.sent = true;
                return Some(Feedback { gain: 120, wall_frame: 1, crouch: true });
            }
        }
        None
    }
}

/// How many of the frames have a player.
pub open spec fn with_player(frames: Seq<bool>) -> nat
    decreases frames.len(),
{
    if frames.len() == 0 {
        0
    } else if frames.last() {
        with_player(frames.drop_last()) + 1
    } else {
        with_player(frames.drop_last())
    }
}

/// The trial after a run of frames, each given by whether there is a player.
pub open spec fn trial_after(frames: Seq<bool>) -> FeedbackTrial
    decreases frames.len(),
{
    if frames.len() == 0 {
        FeedbackTrial { sent: false, frames: 0 }
    } else {
        trial_after(frames.drop_last()).after(frames.last())
    }
}

/// The trial is made on the 120th frame with a player, however many frames without one
/// lie between, and on no other frame.
pub proof fn law_trial_is_made_once(frames: Seq<bool>)
    ensures
        trial_after(frames).well_formed(),
        trial_after(frames).sent <==> with_player(frames) >= 120,
        with_player(frames) <= 120 ==> trial_after(frames).frames == with_player(frames),
        frames.len() > 0 ==> (trial_after(frames).sent && !trial_after(frames.drop_last()).sent
            <==> frames.last() && with_player(frames) == 120),
    decreases frames.len(),
{
    if frames.len() > 0 {
        law_trial_is_made_once(frames.drop_last());
    }
}

/// The last state that was seen.
#[derive(Clone, Copy, PartialEq, Eq, Debug, Structural)]
pub struct StateLog {
    pub wallrun: bool,
    pub jump: bool,
    pub crouch: bool,
}

impl StateLog {
    /// Nothing is going on.
    pub fn new() -> (l: Self)
        ensures
            l == (StateLog { wallrun: false, jump: false, crouch: false }),
    {
        StateLog { wallrun: false, jump: false, crouch: false }
    }

    /// Takes in the state of a frame, and returns whether it is another than before.
    pub fn observe(&mut self, wallrun: bool, jump: bool, crouch: bool) -> (changed: bool)
        ensures
            *final(self) == (StateLog { wallrun, jump, crouch }),
            changed == (*final(self) != *old(self)),
            changed <==> old(self).wallrun != wallrun || old(self).jump != jump || old(self).crouch
                != crouch,
    {
        let changed = self.wallrun != wallrun || self.jump != jump || self.crouch != crouch;
        self.wallrun = wallrun;
        self.jump = jump;
        self.crouch = crouch;
        changed
    }
}

/// Whether a summary of the state is due at `tick`.
pub fn summary_due(tick: u64) -> (r: bool)
    ensures
        r == (tick % SUMMARY_INTERVAL == 0),
        r <==> exists|k: int| tick == #[trigger] (k * 600),
{
    proof {
        if tick % SUMMARY_INTERVAL == 0 {
            assert(tick == (tick as int / 600) * 600);
        }
    }
    tick % SUMMARY_INTERVAL == 0
}

} // verus!
