//! What holds of the buffer over any run of events and updates.

use crate::buffer;
use crate::buffer::{Btn, Decision, Edge, Held, Slot, BUFFER_MS};
use vstd::prelude::*;

verus! {

/// One call of the buffer.
pub enum Op {
    /// An event of a button, at a time.
    Event(Btn, Edge, u64),
    /// A per-frame update, at a time.
    Update(u64),
}

impl Op {
    /// When the call is made.
    pub open spec fn time(self) -> u64 {
        match self {
            Op::Event(_, _, now) => now,
            Op::Update(now) => now,
        }
    }

    /// The events that the call hands in.
    pub open spec fn received(self) -> Seq<Slot> {
        match self {
            Op::Event(btn, edge, _) => seq![(btn, edge)],
            Op::Update(_) => seq![],
        }
    }

    /// The events that the call lets out, in order, while `held` is held.
    pub open spec fn emitted(self, held: Held) -> Seq<Slot> {
        match self {
            Op::Event(btn, edge, now) => match buffer::decision(held, btn, edge, now) {
                Decision::Pass => seq![(btn, edge)],
                Decision::Hold => seq![],
                Decision::FlushThenPass(b, e) => seq![(b, e), (btn, edge)],
            },
            Op::Update(now) => buffer::due_slots(held, now),
        }
    }

    /// What is held after the call.
    pub open spec fn held_after(self, held: Held) -> Held {
        match self {
            Op::Event(btn, edge, now) => buffer::held_after_event(held, btn, edge, now),
            Op::Update(now) => buffer::held_after_update(held, now),
        }
    }
}

/// What is held once `ops` have run on a buffer that held `start`.
pub open spec fn held_at(start: Held, ops: Seq<Op>) -> Held
    decreases ops.len(),
{
    if ops.len() == 0 {
        start
    } else {
        ops.last().held_after(held_at(start, ops.drop_last()))
    }
}

/// All events that `ops` let out of a buffer that held `start`, in order.
pub open spec fn emitted_by(start: Held, ops: Seq<Op>) -> Seq<Slot>
    decreases ops.len(),
{
    if ops.len() == 0 {
        seq![]
    } else {
        emitted_by(start, ops.drop_last()) + ops.last().emitted(held_at(start, ops.drop_last()))
    }
}

/// All events that `ops` hand in, in order.
pub open spec fn received_by(ops: Seq<Op>) -> Seq<Slot>
    decreases ops.len(),
{
    if ops.len() == 0 {
        seq![]
    } else {
        received_by(ops.drop_last()) + ops.last().received()
    }
}

/// How often `slot` occurs in `s`.
pub open spec fn occurrences(s: Seq<Slot>, slot: Slot) -> nat {
    s.filter(is_slot(slot)).len()
}

/// The test for one slot.
pub open spec fn is_slot(slot: Slot) -> spec_fn(Slot) -> bool {
    |x: Slot| x == slot
}

/// `occurrences` adds up over a concatenation, and counts a single slot once.
proof fn lemma_occurrences(s: Seq<Slot>, t: Seq<Slot>, x: Slot, slot: Slot)
    ensures
        occurrences(s + t, slot) == occurrences(s, slot) + occurrences(t, slot),
        occurrences(seq![x], slot) == (if x == slot {
            1nat
        } else {
            0nat
        }),
        occurrences(seq![], slot) == 0,
{
    let p = is_slot(slot);
    Seq::filter_distributes_over_add(s, t, p);
    assert(Seq::<Slot>::empty().filter(p) =~= Seq::empty());
    reveal_with_fuel(Seq::filter, 2);
    assert(seq![x].drop_last() =~= Seq::<Slot>::empty());
}

/// 1 if the slot is held, 0 if not.
pub open spec fn held_count(held: Held, slot: Slot) -> nat {
    if held.contains_key(slot) {
        1
    } else {
        0
    }
}

/// One call lets a slot out as often as it was held or is handed in, but for an
/// event that is held afterwards.
proof fn lemma_step_balance(held: Held, op: Op, slot: Slot)
    ensures
        occurrences(op.received(), slot) + held_count(held, slot) == occurrences(
            op.emitted(held),
            slot,
        ) + held_count(op.held_after(held), slot),
{
    match op {
        Op::Event(btn, edge, now) => {
            lemma_occurrences(seq![], seq![], (btn, edge), slot);
            match buffer::decision(held, btn, edge, now) {
                Decision::FlushThenPass(b, e) => {
                    assert(op.emitted(held) =~= seq![(b, e)] + seq![(btn, edge)]);
                    lemma_occurrences(seq![(b, e)], seq![(btn, edge)], (b, e), slot);
                },
                Decision::Pass => {
                    assert(op.emitted(held) == seq![(btn, edge)]);
                },
                Decision::Hold => {
                    assert(op.emitted(held) =~= Seq::empty());
                },
            }
        },
        Op::Update(now) => {
            let a = buffer::if_due(held, held.older(Btn::Jump), now);
            let b = buffer::if_due(held, held.newer(Btn::Jump), now);
            let c = buffer::if_due(held, held.older(Btn::Crouch), now);
            let d = buffer::if_due(held, held.newer(Btn::Crouch), now);
            lemma_occurrences(a + b, c + d, slot, slot);
            lemma_occurrences(a, b, held.older(Btn::Jump), slot);
            lemma_occurrences(a, b, held.newer(Btn::Jump), slot);
            lemma_occurrences(c, d, held.older(Btn::Crouch), slot);
            lemma_occurrences(c, d, held.newer(Btn::Crouch), slot);
            assert(slot == held.older(slot.0) || slot == held.newer(slot.0));
            assert(occurrences(a, slot) + occurrences(b, slot) + occurrences(c, slot) + occurrences(
                d,
                slot,
            ) == occurrences(buffer::if_due(held, slot, now), slot)) by {
                match slot.0 {
                    Btn::Jump => {},
                    Btn::Crouch => {},
                }
            }
            assert(op.emitted(held) == (a + b) + (c + d));
        },
    }
}

/// Every event goes out exactly once. Over any run, each slot has been let out as
/// often as it was handed in, but for an event that is still held, or was held at
/// the start.
pub proof fn law_every_event_goes_out_once(start: Held, ops: Seq<Op>, slot: Slot)
    ensures
        occurrences(received_by(ops), slot) + held_count(start, slot) == occurrences(
            emitted_by(start, ops),
            slot,
        ) + held_count(held_at(start, ops), slot),
    decreases ops.len(),
{
    if ops.len() == 0 {
        assert(received_by(ops) == emitted_by(start, ops));
    } else {
        let prev = ops.drop_last();
        let held = held_at(start, prev);
        let op = ops.last();
        law_every_event_goes_out_once(start, prev, slot);
        lemma_step_balance(held, op, slot);
        lemma_occurrences(received_by(prev), op.received(), slot, slot);
        lemma_occurrences(emitted_by(start, prev), op.emitted(held), slot, slot);
    }
}

/// The call leaves an event in `slot` held since `since`: it is neither an update
/// past the window nor the press that makes a kick of it.
pub open spec fn leaves_held(op: Op, slot: Slot, since: u64) -> bool {
    match op {
        Op::Event(btn, edge, now) => !(edge == Edge::Press && slot == (
            btn.spec_other(),
            Edge::Press,
        ) && buffer::within_window(since, now)),
        Op::Update(now) => buffer::within_window(since, now),
    }
}

/// An event stays held, with its time, until an update past its window or the other
/// press within its window.
pub proof fn law_held_until_due_or_kicked(start: Held, slot: Slot, ops: Seq<Op>)
    requires
        start.contains_key(slot),
        forall|i: int| 0 <= i < ops.len() ==> leaves_held(#[trigger] ops[i], slot, start[slot]),
    ensures
        held_at(start, ops).contains_key(slot),
        held_at(start, ops)[slot] == start[slot],
    decreases ops.len(),
{
    if ops.len() > 0 {
        let prev = ops.drop_last();
        assert forall|i: int| 0 <= i < prev.len() implies leaves_held(
            #[trigger] prev[i],
            slot,
            start[slot],
        ) by {
            assert(prev[i] == ops[i]);
        }
        law_held_until_due_or_kicked(start, slot, prev);
        assert(leaves_held(ops[ops.len() - 1], slot, start[slot]));
    }
}

/// An update lets out exactly the held events whose window has passed, each once, and
/// of the two events of one button the one that was held first ahead of the other.
pub proof fn law_update_lets_out_exactly_the_due(held: Held, now: u64)
    ensures
        forall|slot: Slot|
            buffer::due_slots(held, now).contains(slot) <==> held.contains_key(slot) && now
                - #[trigger] held[slot] > BUFFER_MS,
        buffer::due_slots(held, now).no_duplicates(),
        ({
            let due = buffer::due_slots(held, now);
            forall|i: int, j: int|
                0 <= i < due.len() && 0 <= j < due.len() && #[trigger] due[i].0
                    == #[trigger] due[j].0 && due[i] == held.older(due[i].0) && due[j]
                    == held.newer(due[j].0) ==> i < j
        }),
{
    let due = buffer::due_slots(held, now);
    assert forall|slot: Slot|
        due.contains(slot) <==> held.contains_key(slot) && now - #[trigger] held[slot]
            > BUFFER_MS by {
        let k = buffer::if_due(held, held.older(Btn::Jump), now).len();
        let l = buffer::due_of(held, Btn::Jump, now).len();
        let m = l + buffer::if_due(held, held.older(Btn::Crouch), now).len();
        if buffer::is_due(held, slot, now) {
            assert(slot == held.older(slot.0) || slot == held.newer(slot.0));
            match slot.0 {
                Btn::Jump => {
                    assert(due[if slot == held.older(slot.0) { 0 } else { k as int }] == slot);
                },
                Btn::Crouch => {
                    assert(due[if slot == held.older(slot.0) { l as int } else { m as int }]
                        == slot);
                },
            }
        }
    }
}

/// A held event that makes no kick goes out with the first update past its window, and
/// not before.
pub proof fn law_lone_event_goes_out_after_window(
    start: Held,
    slot: Slot,
    ops: Seq<Op>,
    now: u64,
)
    requires
        start.contains_key(slot),
        forall|i: int| 0 <= i < ops.len() ==> leaves_held(#[trigger] ops[i], slot, start[slot]),
    ensures
        Op::Update(now).emitted(held_at(start, ops)).contains(slot) <==> now - start[slot]
            > BUFFER_MS,
{
    law_held_until_due_or_kicked(start, slot, ops);
    law_update_lets_out_exactly_the_due(held_at(start, ops), now);
}

/// After an update nothing that it should have let out is left: what is still held
/// is within its window, and another update at that time lets nothing out.
pub proof fn law_update_leaves_none_due(held: Held, now: u64)
    ensures
        forall|slot: Slot| #[trigger]
            buffer::held_after_update(held, now).contains_key(slot) ==> now
                - buffer::held_after_update(held, now)[slot] <= BUFFER_MS,
        buffer::due_slots(buffer::held_after_update(held, now), now) == Seq::<Slot>::empty(),
        buffer::held_after_update(buffer::held_after_update(held, now), now)
            == buffer::held_after_update(held, now),
{
}

/// A held press and the other press within its window go out together, the held one
/// first, and neither is held any longer. Updates within the window, releases and
/// repeats of the held press may come in between.
pub proof fn law_presses_within_window_kick(
    start: Held,
    btn: Btn,
    since: u64,
    between: Seq<Op>,
    now: u64,
)
    requires
        !start.contains_key((btn.spec_other(), Edge::Press)),
        !start.contains_key((btn, Edge::Press)),
        forall|i: int|
            0 <= i < between.len() ==> match #[trigger] between[i] {
                Op::Event(b, edge, _) => edge == Edge::Release || b == btn,
                Op::Update(t) => t - since <= BUFFER_MS,
            },
        now - since <= BUFFER_MS,
    ensures
        buffer::decision(start, btn, Edge::Press, since) == Decision::Hold,
        ({
            let held = held_at(
                buffer::held_after_event(start, btn, Edge::Press, since),
                between,
            );
            let press = Op::Event(btn.spec_other(), Edge::Press, now);
            &&& buffer::decision(held, btn.spec_other(), Edge::Press, now)
                == Decision::FlushThenPass(btn, Edge::Press)
            &&& press.emitted(held) == seq![(btn, Edge::Press), (btn.spec_other(), Edge::Press)]
            &&& !press.held_after(held).contains_key((btn, Edge::Press))
            &&& !press.held_after(held).contains_key((btn.spec_other(), Edge::Press))
        }),
{
    let first = buffer::held_after_event(start, btn, Edge::Press, since);
    assert forall|i: int| 0 <= i < between.len() implies leaves_held(
        #[trigger] between[i],
        (btn, Edge::Press),
        first[(btn, Edge::Press)],
    ) by {}
    law_held_until_due_or_kicked(first, (btn, Edge::Press), between);
    lemma_partner_stays_free(first, btn, between);
}

proof fn lemma_partner_stays_free(start: Held, btn: Btn, ops: Seq<Op>)
    requires
        !start.contains_key((btn.spec_other(), Edge::Press)),
        forall|i: int|
            0 <= i < ops.len() ==> match #[trigger] ops[i] {
                Op::Event(b, edge, _) => edge == Edge::Release || b == btn,
                Op::Update(t) => true,
            },
    ensures
        !held_at(start, ops).contains_key((btn.spec_other(), Edge::Press)),
    decreases ops.len(),
{
    if ops.len() > 0 {
        let prev = ops.drop_last();
        assert forall|i: int| 0 <= i < prev.len() implies match #[trigger] prev[i] {
            Op::Event(b, edge, _) => edge == Edge::Release || b == btn,
            Op::Update(t) => true,
        } by {
            assert(prev[i] == ops[i]);
        }
        lemma_partner_stays_free(start, btn, prev);
        assert(ops[ops.len() - 1] == ops.last());
    }
}

/// A kick comes of nothing but a press within the window of the other press, which
/// is held. In particular no release makes a kick, and no press past the window.
pub proof fn law_kick_only_within_window(held: Held, btn: Btn, edge: Edge, now: u64)
    ensures
        buffer::decision(held, btn, edge, now) is FlushThenPass <==> {
            &&& edge == Edge::Press
            &&& !held.contains_key((btn, Edge::Press))
            &&& held.contains_key((btn.spec_other(), Edge::Press))
            &&& now - held[(btn.spec_other(), Edge::Press)] <= BUFFER_MS
        },
        buffer::decision(held, btn, edge, now) matches Decision::FlushThenPass(b, e) ==> b
            == btn.spec_other() && e == Edge::Press,
{
}

/// The jump press and the crouch press are not both held, unless one came more than
/// a window after the other.
pub open spec fn presses_apart(held: Held) -> bool {
    let jump = (Btn::Jump, Edge::Press);
    let crouch = (Btn::Crouch, Edge::Press);
    held.contains_key(jump) && held.contains_key(crouch) ==> held[jump] - held[crouch] > BUFFER_MS
        || held[crouch] - held[jump] > BUFFER_MS
}

/// Two presses close enough for a kick are never held side by side, whatever a
/// buffer that started empty has been through.
pub proof fn law_presses_stay_apart(ops: Seq<Op>)
    ensures
        presses_apart(held_at(Held::empty(), ops)),
    decreases ops.len(),
{
    if ops.len() > 0 {
        law_presses_stay_apart(ops.drop_last());
    }
}

} // verus!
