//! The timing buffer: which jump and crouch events are held back, and since when.
//!
//! Releases are held as well as presses, so that press/release ordering survives the
//! buffering: of the two events of one button that an update lets go together, the one
//! that was held first goes first.

use vstd::prelude::*;

verus! {

/// How long an event is held back, in milliseconds.
pub const BUFFER_MS: u64 = 8;

/// A buffered action.
#[derive(Clone, Copy, PartialEq, Eq, Debug, Structural)]
pub enum Btn {
    Jump,
    Crouch,
}

impl Btn {
    /// The row of this action in a table of held events.
    pub open spec fn spec_idx(self) -> int {
        match self {
            Btn::Jump => 0,
            Btn::Crouch => 1,
        }
    }

    /// The row of this action in a table of held events.
    pub fn idx(self) -> (i: usize)
        ensures
            i == self.spec_idx(),
            i < 2,
            i == 0 <==> self == Btn::Jump,
            i == 1 <==> self == Btn::Crouch,
    {
        match self {
            Btn::Jump => 0,
            Btn::Crouch => 1,
        }
    }

    /// The action that completes a crouch kick together with this one.
    pub open spec fn spec_other(self) -> Btn {
        match self {
            Btn::Jump => Btn::Crouch,
            Btn::Crouch => Btn::Jump,
        }
    }

    /// The action that completes a crouch kick together with this one.
    pub fn other(self) -> (b: Btn)
        ensures
            b == self.spec_other(),
            b != self,
    {
        match self {
            Btn::Jump => Btn::Crouch,
            Btn::Crouch => Btn::Jump,
        }
    }
}

/// Whether a key goes down or up.
#[derive(Clone, Copy, PartialEq, Eq, Debug, Structural)]
pub enum Edge {
    Press,
    Release,
}

impl Edge {
    /// The other edge.
    pub open spec fn opposite(self) -> Edge {
        match self {
            Edge::Press => Edge::Release,
            Edge::Release => Edge::Press,
        }
    }

    /// The column of this edge in a table of held events.
    pub open spec fn spec_idx(self) -> int {
        match self {
            Edge::Press => 0,
            Edge::Release => 1,
        }
    }

    /// The column of this edge in a table of held events.
    pub fn idx(self) -> (i: usize)
        ensures
            i == self.spec_idx(),
            i < 2,
            i == 0 <==> self == Edge::Press,
            i == 1 <==> self == Edge::Release,
    {
        match self {
            Edge::Press => 0,
            Edge::Release => 1,
        }
    }
}

/// What becomes of an incoming jump or crouch event.
#[derive(PartialEq, Eq, Debug, Structural)]
pub enum Decision {
    /// Emit the event.
    Pass,
    /// Swallow the event and remember it as held.
    Hold,
    /// Emit the named held event first, then the incoming one: a crouch kick.
    FlushThenPass(Btn, Edge),
}

/// One of the four kinds of event that the buffer tells apart.
pub type Slot = (Btn, Edge);

/// The window of an event held since `since` still covers `now`. A clock that has
/// gone back counts as no time passed.
pub open spec fn within_window(since: u64, now: u64) -> bool {
    now - since <= BUFFER_MS
}

/// What a buffer holds.
#[verifier::ext_equal]
pub ghost struct Held {
    /// The held slots, each with the time since which it is held.
    pub since: Map<Slot, u64>,
    /// The edge of the event of each button that was held last.
    pub newest: Map<Btn, Edge>,
}

impl Held {
    /// Nothing is held, and nothing has been.
    pub open spec fn empty() -> Held {
        Held { since: Map::empty(), newest: Map::total(|b: Btn| Edge::Release) }
    }

    /// The slot is held.
    pub open spec fn contains_key(self, slot: Slot) -> bool {
        self.since.contains_key(slot)
    }

    /// Since when the slot is held.
    pub open spec fn spec_index(self, slot: Slot) -> u64 {
        self.since[slot]
    }

    /// An event for `slot` comes to be held at `now`, as the newest of its button.
    pub open spec fn with(self, slot: Slot, now: u64) -> Held {
        Held { since: self.since.insert(slot, now), newest: self.newest.insert(slot.0, slot.1) }
    }

    /// The event in `slot` is let go.
    pub open spec fn without(self, slot: Slot) -> Held {
        Held { since: self.since.remove(slot), newest: self.newest }
    }

    /// The slot of `btn` that was held last, where both are held.
    pub open spec fn newer(self, btn: Btn) -> Slot {
        (btn, self.newest[btn])
    }

    /// The slot of `btn` that was held first, where both are held.
    pub open spec fn older(self, btn: Btn) -> Slot {
        (btn, self.newest[btn].opposite())
    }
}

/// The event in `slot` is held and its window has passed at `now`.
pub open spec fn is_due(held: Held, slot: Slot, now: u64) -> bool {
    held.contains_key(slot) && !within_window(held[slot], now)
}

/// What the buffer decides on an event at `now` while it holds `held`: a second
/// event for a slot that is taken passes, a press within the window of the other
/// press is a kick, and everything else is held.
pub open spec fn decision(held: Held, btn: Btn, edge: Edge, now: u64) -> Decision {
    let partner = (btn.spec_other(), Edge::Press);
    if held.contains_key((btn, edge)) {
        Decision::Pass
    } else if edge == Edge::Press && held.contains_key(partner) && within_window(
        held[partner],
        now,
    ) {
        Decision::FlushThenPass(partner.0, partner.1)
    } else {
        Decision::Hold
    }
}

/// What is held after an event at `now`.
pub open spec fn held_after_event(held: Held, btn: Btn, edge: Edge, now: u64) -> Held {
    match decision(held, btn, edge, now) {
        Decision::Pass => held,
        Decision::Hold => held.with((btn, edge), now),
        Decision::FlushThenPass(b, e) => held.without((b, e)),
    }
}

/// The slot alone if it is due, and nothing otherwise.
pub open spec fn if_due(held: Held, slot: Slot, now: u64) -> Seq<Slot> {
    if is_due(held, slot, now) {
        seq![slot]
    } else {
        seq![]
    }
}

/// The slots of one button that an update at `now` lets go: those that are due, in the
/// order in which they came to be held.
pub open spec fn due_of(held: Held, btn: Btn, now: u64) -> Seq<Slot> {
    if_due(held, held.older(btn), now) + if_due(held, held.newer(btn), now)
}

/// The slots that an update at `now` lets go, jump ahead of crouch.
pub open spec fn due_slots(held: Held, now: u64) -> Seq<Slot> {
    due_of(held, Btn::Jump, now) + due_of(held, Btn::Crouch, now)
}

/// What is held after an update at `now`.
pub open spec fn held_after_update(held: Held, now: u64) -> Held {
    Held {
        since: Map::new(
            |s: Slot| held.contains_key(s) && !is_due(held, s, now),
            |s: Slot| held[s],
        ),
        newest: held.newest,
    }
}

/// Tracks which jump and crouch events are held, and since when.
pub struct Buffer {
    held: [[Option<u64>; 2]; 2],
    newest: [Edge; 2],
}

impl View for Buffer {
    type V = Held;

    closed spec fn view(&self) -> Held {
        Held {
            since: Map::new(
                |s: Slot| self.held[s.0.spec_idx()][s.1.spec_idx()] is Some,
                |s: Slot| self.held[s.0.spec_idx()][s.1.spec_idx()]->0,
            ),
            newest: Map::total(|b: Btn| self.newest[b.spec_idx()]),
        }
    }
}

impl Default for Buffer {
    fn default() -> (b: Self)
        ensures
            b@ == Held::empty(),
            forall|s: Slot| !(#[trigger] b@.since.contains_key(s)),
    {
        Buffer {
            held: [[None, None], [None, None]],
            newest: [Edge::Release, Edge::Release],
        }
    }
}

impl Buffer {
    /// A buffer that holds nothing.
    pub fn new() -> (b: Self)
        ensures
            b@ == Held::empty(),
            forall|s: Slot| !(#[trigger] b@.since.contains_key(s)),
    {
        Self::default()
    }

    /// Decides on an incoming event at `now_ms`.
    pub fn on_event(&mut self, btn: Btn, edge: Edge, now_ms: u64) -> (d: Decision)
        ensures
            d == decision(old(self)@, btn, edge, now_ms),
            final(self)@ == held_after_event(old(self)@, btn, edge, now_ms),
            d == Decision::Pass <==> old(self)@.since.contains_key((btn, edge)),
            d == Decision::Hold ==> final(self)@.since == old(self)@.since.insert(
                (btn, edge),
                now_ms,
            ),
            d matches Decision::FlushThenPass(b, e) ==> {
                &&& edge == Edge::Press && e == Edge::Press && b != btn
                &&& old(self)@.since.contains_key((b, e))
                &&& now_ms - old(self)@.since[(b, e)] <= 8
                &&& final(self)@.since == old(self)@.since.remove((b, e))
            },
    {
        if self.held[btn.idx()][edge.idx()].is_some() {
            return Decision::Pass;
        }
        if edge == Edge::Press {
            let other = btn.other();
            if let Some(ts) = self.held[other.idx()][Edge::Press.idx()] {
                if now_ms.saturating_sub(ts) <= BUFFER_MS {
                    self.held[other.idx()][Edge::Press.idx()] = None;
                    return Decision::FlushThenPass(other, Edge::Press);
                }
            }
        }
        self.held[btn.idx()][edge.idx()] = Some(now_ms);
        self.newest[btn.idx()] = edge;
        Decision::Hold
    }

    /// Lets go of the event in one slot if its window has passed at `now_ms`, and adds
    /// the slot to `out`.
    fn release_if_due(&mut self, btn: Btn, edge: Edge, now_ms: u64, out: &mut Vec<(Btn, Edge)>)
        ensures
            final(out)@ == old(out)@ + if_due(old(self)@, (btn, edge), now_ms),
            final(self)@ == (if is_due(old(self)@, (btn, edge), now_ms) {
                old(self)@.without((btn, edge))
            } else {
                old(self)@
            }),
    {
        if let Some(ts) = self.held[btn.idx()][edge.idx()] {
            assert(old(self)@.contains_key((btn, edge)));
            if now_ms.saturating_sub(ts) > BUFFER_MS {
                self.held[btn.idx()][edge.idx()] = None;
                out.push((btn, edge));
                assert(self@ =~= old(self)@.without((btn, edge)));
            }
        } else {
            assert(!old(self)@.contains_key((btn, edge)));
        }
    }

    /// Lets go of the events of one button whose window has passed at `now_ms`, and adds
    /// their slots to `out`, the one that was held first ahead of the other.
    fn release_button(&mut self, btn: Btn, now_ms: u64, out: &mut Vec<(Btn, Edge)>)
        ensures
            final(out)@ == old(out)@ + due_of(old(self)@, btn, now_ms),
            final(self)@.newest == old(self)@.newest,
            forall|s: Slot| #[trigger]
                final(self)@.contains_key(s) <==> old(self)@.contains_key(s) && !(s.0 == btn
                    && is_due(old(self)@, s, now_ms)),
            forall|s: Slot| #[trigger]
                final(self)@.contains_key(s) ==> final(self)@[s] == old(self)@[s],
    {
        if self.newest[btn.idx()] == Edge::Press {
            self.release_if_due(btn, Edge::Release, now_ms, out);
            self.release_if_due(btn, Edge::Press, now_ms, out);
        } else {
            self.release_if_due(btn, Edge::Press, now_ms, out);
            self.release_if_due(btn, Edge::Release, now_ms, out);
        }
    }

    /// Lets go of the held events whose window has passed at `now_ms`, and returns
    /// their slots in order.
    pub fn on_update(&mut self, now_ms: u64) -> (out: Vec<(Btn, Edge)>)
        ensures
            out@ == due_slots(old(self)@, now_ms),
            final(self)@ == held_after_update(old(self)@, now_ms),
            forall|s: Slot| #[trigger]
                final(self)@.since.contains_key(s) <==> old(self)@.since.contains_key(s) && now_ms
                    - old(self)@.since[s] <= 8,
            forall|s: Slot| #[trigger]
                final(self)@.since.contains_key(s) ==> final(self)@.since[s]
                    == old(self)@.since[s],
    {
        let mut out: Vec<(Btn, Edge)> = Vec::new();
        self.release_button(Btn::Jump, now_ms, &mut out);
        let ghost between = self@;
        assert forall|e: Edge| #[trigger] is_due(between, (Btn::Crouch, e), now_ms) == is_due(
            old(self)@,
            (Btn::Crouch, e),
            now_ms,
        ) by {
            assert(between.contains_key((Btn::Crouch, e)) == old(self)@.contains_key(
                (Btn::Crouch, e),
            ));
        }
        self.release_button(Btn::Crouch, now_ms, &mut out);
        proof {
            assert(due_of(between, Btn::Crouch, now_ms) == due_of(
                old(self)@,
                Btn::Crouch,
                now_ms,
            ));
            let after = held_after_update(old(self)@, now_ms);
            assert forall|s: Slot| #[trigger]
                self@.since.contains_key(s) == after.since.contains_key(s) by {
                assert(self@.contains_key(s) ==> between.contains_key(s));
                assert(between.contains_key(s) ==> old(self)@.contains_key(s));
            }
            assert forall|s: Slot| #[trigger] self@.since.contains_key(s) implies self@.since[s]
                == after.since[s] by {
                assert(self@.contains_key(s));
                assert(between.contains_key(s));
            }
            assert(self@ =~= after);
        }
        out
    }
}

/// The window is 8 milliseconds, and a buffer starts out with nothing held.
pub proof fn law_starts_empty_with_eight_ms()
    ensures
        BUFFER_MS == 8,
        forall|s: Slot| !(#[trigger] Held::empty().since.contains_key(s)),
{
}

/// An event passes if and only if its own slot is taken. So an event whose slot is free
/// never goes out on its own at once, whatever else is held and since when.
pub proof fn law_passes_only_if_slot_taken(held: Held, btn: Btn, edge: Edge, now: u64)
    ensures
        decision(held, btn, edge, now) == Decision::Pass <==> held.since.contains_key((btn, edge)),
{
}

/// A release whose slot is free is held, whatever else is held and whatever the time.
pub proof fn law_free_release_is_held(held: Held, btn: Btn, now: u64)
    requires
        !held.since.contains_key((btn, Edge::Release)),
    ensures
        decision(held, btn, Edge::Release, now) == Decision::Hold,
{
}

/// A press whose slot is free is held, unless the press of the other button is held and
/// no more than 8 milliseconds old. Then that press is let out ahead of it.
pub proof fn law_free_press_is_held_or_kicks(held: Held, btn: Btn, other: Btn, now: u64)
    requires
        other != btn,
        !held.since.contains_key((btn, Edge::Press)),
    ensures
        held.since.contains_key((other, Edge::Press)) && now - held.since[(other, Edge::Press)] <= 8
            ==> decision(held, btn, Edge::Press, now) == Decision::FlushThenPass(
            other,
            Edge::Press,
        ),
        !(held.since.contains_key((other, Edge::Press)) && now - held.since[(other, Edge::Press)]
            <= 8) ==> decision(held, btn, Edge::Press, now) == Decision::Hold,
{
}

/// An event changes at most one slot. If it is held, its own slot is taken from now on,
/// as the last one of its button. If it makes a kick, the other press is no longer held.
/// If it passes, nothing changes.
pub proof fn law_event_changes_at_most_one_slot(held: Held, btn: Btn, edge: Edge, now: u64)
    ensures
        ({
            let after = held_after_event(held, btn, edge, now);
            let came = (btn, edge);
            match decision(held, btn, edge, now) {
                Decision::Pass => after == held,
                Decision::Hold => {
                    &&& after.since.contains_key(came) && after.since[came] == now
                    &&& after.newest[btn] == edge
                    &&& forall|b: Btn| b != btn ==> #[trigger] after.newest[b] == held.newest[b]
                    &&& forall|s: Slot|
                        s != came ==> (#[trigger] after.since.contains_key(s)
                            <==> held.since.contains_key(s))
                    &&& forall|s: Slot|
                        s != came && held.since.contains_key(s) ==> #[trigger] after.since[s]
                            == held.since[s]
                },
                Decision::FlushThenPass(b, e) => {
                    &&& !after.since.contains_key((b, e))
                    &&& after.newest == held.newest
                    &&& forall|s: Slot|
                        s != (b, e) ==> (#[trigger] after.since.contains_key(s)
                            <==> held.since.contains_key(s))
                    &&& forall|s: Slot|
                        s != (b, e) && held.since.contains_key(s) ==> #[trigger] after.since[s]
                            == held.since[s]
                },
            }
        }),
{
}

/// An update lets a slot go if and only if it has been held for more than 8 milliseconds.
/// The other slots stay as they are.
pub proof fn law_update_goes_by_the_window(held: Held, now: u64, slot: Slot)
    ensures
        due_slots(held, now).contains(slot) <==> held.since.contains_key(slot) && now
            - held.since[slot] > 8,
        held_after_update(held, now).since.contains_key(slot) <==> held.since.contains_key(slot)
            && now - held.since[slot] <= 8,
        held_after_update(held, now).since.contains_key(slot) ==> held_after_update(
            held,
            now,
        ).since[slot] == held.since[slot],
        held_after_update(held, now).newest == held.newest,
{
    let due = due_slots(held, now);
    let k = if_due(held, held.older(Btn::Jump), now).len();
    let l = due_of(held, Btn::Jump, now).len();
    let m = l + if_due(held, held.older(Btn::Crouch), now).len();
    if is_due(held, slot, now) {
        assert(slot == held.older(slot.0) || slot == held.newer(slot.0));
        match slot.0 {
            Btn::Jump => {
                assert(due[if slot == held.older(slot.0) { 0 } else { k as int }] == slot);
            },
            Btn::Crouch => {
                assert(due[if slot == held.older(slot.0) { l as int } else { m as int }] == slot);
            },
        }
    }
}

/// What an update lets go comes once, jump ahead of crouch, and of the two events of one
/// button the one that was held last comes last.
pub proof fn law_update_order(held: Held, now: u64, i: int, j: int)
    requires
        0 <= i < j < due_slots(held, now).len(),
    ensures
        due_slots(held, now)[i] != due_slots(held, now)[j],
        !(due_slots(held, now)[i].0 == Btn::Crouch && due_slots(held, now)[j].0 == Btn::Jump),
        due_slots(held, now)[i].0 == due_slots(held, now)[j].0 ==> due_slots(held, now)[j].1
            == held.newest[due_slots(held, now)[j].0],
{
}

/// Of the two events of one button that come to be held one after the other, at whatever
/// times, and are let go by the same update, the first to come is the first to go.
pub proof fn law_first_held_goes_first(
    held: Held,
    btn: Btn,
    first: Edge,
    second: Edge,
    t1: u64,
    t2: u64,
    now: u64,
    i: int,
    j: int,
)
    requires
        first != second,
        decision(held, btn, first, t1) == Decision::Hold,
        decision(held_after_event(held, btn, first, t1), btn, second, t2) == Decision::Hold,
        ({
            let both = held_after_event(
                held_after_event(held, btn, first, t1),
                btn,
                second,
                t2,
            );
            let due = due_slots(both, now);
            0 <= i < due.len() && 0 <= j < due.len() && due[i] == (btn, first) && due[j] == (
                btn,
                second,
            )
        }),
    ensures
        i < j,
{
}

} // verus!
