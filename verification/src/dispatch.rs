//! What becomes of the engine's raw input events.

use crate::actions;
use crate::actions::Actions;
use crate::buffer;
use crate::buffer::{Btn, Buffer, Decision, Edge, Held, Slot};
use crate::timeline;
use vstd::prelude::*;

verus! {

/// The arguments of one call of the engine's event function.
#[derive(Clone, Copy, PartialEq, Eq, Debug, Structural)]
pub struct RawEvent {
    pub ctx: usize,
    pub n_type: i32,
    pub n_tick: i32,
    pub scan: i32,
    pub virt: i32,
    pub data3: i32,
}

impl RawEvent {
    /// The same event under another context.
    pub open spec fn spec_with_ctx(self, ctx: usize) -> RawEvent {
        RawEvent { ctx, ..self }
    }

    /// The same event under another context.
    pub fn with_ctx(self, ctx: usize) -> (r: RawEvent)
        ensures
            r == self.spec_with_ctx(ctx),
            r.ctx == ctx,
            r.n_type == self.n_type,
            r.n_tick == self.n_tick,
            r.scan == self.scan,
            r.virt == self.virt,
            r.data3 == self.data3,
    {
        RawEvent {
            ctx,
            n_type: self.n_type,
            n_tick: self.n_tick,
            scan: self.scan,
            virt: self.virt,
            data3: self.data3,
        }
    }
}

/// What to do about an incoming event.
#[derive(Clone, Copy, PartialEq, Eq, Debug, Structural)]
pub enum Act {
    /// Hand nothing on.
    Swallow,
    /// Hand this event on.
    Pass(RawEvent),
    /// Hand the first event on, which was held, then the second.
    FlushThenPass(RawEvent, RawEvent),
}

impl Act {
    /// The events that are handed on, in order.
    pub open spec fn events(self) -> Seq<RawEvent> {
        match self {
            Act::Swallow => seq![],
            Act::Pass(e) => seq![e],
            Act::FlushThenPass(h, e) => seq![h, e],
        }
    }
}

/// What a dispatcher has in hand.
pub ghost struct Desk {
    /// Whether events are buffered at all.
    pub enabled: bool,
    /// Which slots are held, and since when.
    pub held: Held,
    /// The event in each held slot.
    pub events: Map<Slot, RawEvent>,
}

impl Desk {
    /// Every held slot has its event, and no other slot has one.
    pub open spec fn well_formed(self) -> bool {
        self.held.since.dom() == self.events.dom()
    }

    /// What becomes of `event` on a key that is bound to `actions`: anything but a
    /// jump or crouch press or release goes through untouched, and so do these while
    /// buffering is off. The rest is up to the buffer. An event that the buffer lets
    /// pass goes out under the context `reemit_ctx`, a held one under its own.
    pub open spec fn act(
        self,
        event: RawEvent,
        actions: Actions,
        now: u64,
        reemit_ctx: usize,
    ) -> Act {
        match actions::spec_classify(actions, event.n_type) {
            Some((btn, edge)) if self.enabled => match buffer::decision(
                self.held,
                btn,
                edge,
                now,
            ) {
                Decision::Pass => Act::Pass(event.spec_with_ctx(reemit_ctx)),
                Decision::Hold => Act::Swallow,
                Decision::FlushThenPass(b, e) => Act::FlushThenPass(
                    self.events[(b, e)],
                    event.spec_with_ctx(reemit_ctx),
                ),
            },
            _ => Act::Pass(event),
        }
    }

    /// What is in hand after `event`.
    pub open spec fn after_event(self, event: RawEvent, actions: Actions, now: u64) -> Desk {
        match actions::spec_classify(actions, event.n_type) {
            Some((btn, edge)) if self.enabled => Desk {
                enabled: true,
                held: buffer::held_after_event(self.held, btn, edge, now),
                events: match buffer::decision(self.held, btn, edge, now) {
                    Decision::Pass => self.events,
                    Decision::Hold => self.events.insert((btn, edge), event),
                    Decision::FlushThenPass(b, e) => self.events.remove((b, e)),
                },
            },
            _ => self,
        }
    }

    /// The held events whose window has passed at `now`, in order.
    pub open spec fn due(self, now: u64) -> Seq<RawEvent> {
        buffer::due_slots(self.held, now).map_values(|s: Slot| self.events[s])
    }

    /// What is in hand after the due events have gone out.
    pub open spec fn after_flush(self, now: u64) -> Desk {
        Desk {
            enabled: self.enabled,
            held: buffer::held_after_update(self.held, now),
            events: Map::new(
                |s: Slot| self.events.contains_key(s) && !buffer::is_due(self.held, s, now),
                |s: Slot| self.events[s],
            ),
        }
    }
}

/// Decides on raw events, and keeps the arguments of those that are held.
pub struct Dispatcher {
    enabled: bool,
    buffer: Buffer,
    held: [[Option<RawEvent>; 2]; 2],
}

impl View for Dispatcher {
    type V = Desk;

    closed spec fn view(&self) -> Desk {
        Desk {
            enabled: self.enabled,
            held: self.buffer@,
            events: Map::new(
                |s: Slot| self.held[s.0.spec_idx()][s.1.spec_idx()] is Some,
                |s: Slot| self.held[s.0.spec_idx()][s.1.spec_idx()]->0,
            ),
        }
    }
}

impl Dispatcher {
    /// A dispatcher that buffers, and holds nothing.
    pub fn new() -> (d: Self)
        ensures
            d@.enabled,
            d@.held == Held::empty(),
            forall|s: Slot| !(#[trigger] d@.held.since.contains_key(s)),
            d@.events == Map::<Slot, RawEvent>::empty(),
            d@.well_formed(),
    {
        let d = Dispatcher {
            enabled: true,
            buffer: Buffer::new(),
            held: [[None, None], [None, None]],
        };
        assert(d@.events =~= Map::empty());
        d
    }

    /// Turns buffering on, or off with 0. What is held stays held.
    pub fn set_options(&mut self, enabled: i32)
        ensures
            final(self)@ == (Desk { enabled: enabled != 0, ..old(self)@ }),
            !final(self)@.enabled <==> enabled == 0,
            final(self)@.held == old(self)@.held,
            final(self)@.events == old(self)@.events,
    {
        self.enabled = enabled != 0;
    }

    /// Takes the event out of a slot.
    fn take(&mut self, btn: Btn, edge: Edge) -> (r: Option<RawEvent>)
        ensures
            r == (if old(self)@.events.contains_key((btn, edge)) {
                Some(old(self)@.events[(btn, edge)])
            } else {
                None
            }),
            final(self)@ == (Desk { events: old(self)@.events.remove((btn, edge)), ..old(self)@ }),
    {
        let taken = self.held[btn.idx()][edge.idx()];
        self.held[btn.idx()][edge.idx()] = None;
        assert(self@.events =~= old(self)@.events.remove((btn, edge)));
        taken
    }

    /// Decides on an event at `now_ms` on a key that is bound to `actions`.
    pub fn post_event(
        &mut self,
        event: RawEvent,
        actions: Actions,
        now_ms: u64,
        reemit_ctx: usize,
    ) -> (act: Act)
        requires
            old(self)@.well_formed(),
        ensures
            act == old(self)@.act(event, actions, now_ms, reemit_ctx),
            final(self)@ == old(self)@.after_event(event, actions, now_ms),
            final(self)@.well_formed(),
            final(self)@.enabled == old(self)@.enabled,
            act matches Act::Pass(e) ==> e.n_type == event.n_type && e.n_tick == event.n_tick
                && e.scan == event.scan && e.virt == event.virt && e.data3 == event.data3,
            act == Act::Swallow ==> exists|s: Slot|
                {
                    &&& #[trigger] final(self)@.events.contains_key(s)
                    &&& final(self)@.events[s] == event
                    &&& !old(self)@.events.contains_key(s)
                },
            act matches Act::FlushThenPass(h, _) ==> exists|s: Slot|
                {
                    &&& #[trigger] old(self)@.events.contains_key(s)
                    &&& old(self)@.events[s] == h
                    &&& !final(self)@.events.contains_key(s)
                },
            act matches Act::FlushThenPass(_, e) ==> e.ctx == reemit_ctx && e.n_type
                == event.n_type && e.n_tick == event.n_tick && e.scan == event.scan && e.virt
                == event.virt && e.data3 == event.data3,
    {
        let (btn, edge) = match crate::actions::classify(actions, event.n_type) {
            Some(slot) => slot,
            None => return Act::Pass(event),
        };
        if !self.enabled {
            return Act::Pass(event);
        }
        let ghost before = self@;
        match self.buffer.on_event(btn, edge, now_ms) {
            Decision::Pass => Act::Pass(event.with_ctx(reemit_ctx)),
            Decision::Hold => {
                self.held[btn.idx()][edge.idx()] = Some(event);
                assert(!before.held.since.dom().contains((btn, edge)));
                assert(self@.events =~= before.events.insert((btn, edge), event));
                assert(self@.events.contains_key((btn, edge)));
                Act::Swallow
            },
            Decision::FlushThenPass(b, e) => {
                assert(before.held.since.dom().contains((b, e)));
                assert(before.events.contains_key((b, e)));
                match self.take(b, e) {
                    Some(h) => Act::FlushThenPass(h, event.with_ctx(reemit_ctx)),
                    None => Act::Pass(event.with_ctx(reemit_ctx)),
                }
            },
        }
    }

    /// Takes out the held events whose window has passed at `now_ms`, in order.
    pub fn flush(&mut self, now_ms: u64) -> (out: Vec<RawEvent>)
        requires
            old(self)@.well_formed(),
        ensures
            out@ == old(self)@.due(now_ms),
            final(self)@ == old(self)@.after_flush(now_ms),
            final(self)@.well_formed(),
            final(self)@.enabled == old(self)@.enabled,
            out@.len() == buffer::due_slots(old(self)@.held, now_ms).len(),
            forall|i: int|
                0 <= i < out@.len() ==> #[trigger] out@[i] == old(self)@.events[buffer::due_slots(
                    old(self)@.held,
                    now_ms,
                )[i]],
            forall|s: Slot| #[trigger]
                final(self)@.events.contains_key(s) ==> final(self)@.events[s]
                    == old(self)@.events[s],
    {
        let ghost before = self@;
        let due = self.buffer.on_update(now_ms);
        proof {
            timeline::law_update_lets_out_exactly_the_due(before.held, now_ms);
        }
        let mut out: Vec<RawEvent> = Vec::new();
        for k in 0..due.len()
            invariant
                due@ == buffer::due_slots(before.held, now_ms),
                due@.no_duplicates(),
                forall|s: Slot| #[trigger]
                    due@.contains(s) <==> buffer::is_due(before.held, s, now_ms),
                before.well_formed(),
                self@.enabled == before.enabled,
                self@.held == buffer::held_after_update(before.held, now_ms),
                out@ == before.due(now_ms).take(k as int),
                forall|s: Slot| #[trigger]
                    self@.events.contains_key(s) <==> before.events.contains_key(s)
                        && !due@.take(k as int).contains(s),
                forall|s: Slot|
                    self@.events.contains_key(s) ==> #[trigger] self@.events[s]
                        == before.events[s],
        {
            let (btn, edge) = due[k];
            let ghost slot = (btn, edge);
            let ghost done = due@.take(k as int);
            proof {
                assert(due@.contains(slot));
                assert(before.held.since.dom().contains(slot));
                assert(!done.contains(slot));
                assert(due@.take(k + 1) =~= done.push(slot));
                assert(before.due(now_ms).take(k + 1) =~= before.due(now_ms).take(k as int).push(
                    before.events[slot],
                ));
                assert forall|s: Slot| #[trigger] done.push(slot).contains(s) <==> done.contains(s)
                    || s == slot by {
                    assert(done.push(slot).last() == slot);
                    if done.contains(s) {
                        let i = choose|i: int| 0 <= i < done.len() && done[i] == s;
                        assert(done.push(slot)[i] == s);
                    }
                }
                assert(self@.events.contains_key(slot));
            }
            if let Some(event) = self.take(btn, edge) {
                out.push(event);
            }
        }
        assert(due@.take(due@.len() as int) =~= due@);
        assert(before.due(now_ms).take(due@.len() as int) =~= before.due(now_ms));
        assert(self@.events =~= before.after_flush(now_ms).events);
        assert(self@.held.since.dom() =~= self@.events.dom());
        out
    }
}

} // verus!
