//! What holds of the dispatcher over any run of events, flushes and settings.

use crate::actions;
use crate::actions::Actions;
use crate::buffer;
use crate::buffer::{Btn, Edge, Slot, BUFFER_MS};
use crate::dispatch::{Act, Desk, RawEvent};
use crate::timeline;
use vstd::prelude::*;

verus! {

/// One call of the dispatcher.
pub enum Call {
    /// An event, what its key is bound to, the time, and the context for what passes.
    Post(RawEvent, Actions, u64, usize),
    /// A per-frame flush, at a time.
    Flush(u64),
    /// A change of the setting.
    SetOptions(i32),
}

impl Call {
    /// The events that the call hands in.
    pub open spec fn received(self) -> Seq<RawEvent> {
        match self {
            Call::Post(event, _, _, _) => seq![event],
            _ => seq![],
        }
    }

    /// The events that the call hands on, in order.
    pub open spec fn sent(self, desk: Desk) -> Seq<RawEvent> {
        match self {
            Call::Post(event, actions, now, reemit_ctx) => desk.act(
                event,
                actions,
                now,
                reemit_ctx,
            ).events(),
            Call::Flush(now) => desk.due(now),
            Call::SetOptions(_) => seq![],
        }
    }

    /// What is in hand after the call.
    pub open spec fn after(self, desk: Desk) -> Desk {
        match self {
            Call::Post(event, actions, now, _) => desk.after_event(event, actions, now),
            Call::Flush(now) => desk.after_flush(now),
            Call::SetOptions(enabled) => Desk { enabled: enabled != 0, ..desk },
        }
    }
}

/// What is in hand after `calls`.
pub open spec fn desk_at(start: Desk, calls: Seq<Call>) -> Desk
    decreases calls.len(),
{
    if calls.len() == 0 {
        start
    } else {
        calls.last().after(desk_at(start, calls.drop_last()))
    }
}

/// All events that `calls` hand on, in order.
pub open spec fn sent_by(start: Desk, calls: Seq<Call>) -> Seq<RawEvent>
    decreases calls.len(),
{
    if calls.len() == 0 {
        seq![]
    } else {
        sent_by(start, calls.drop_last()) + calls.last().sent(desk_at(start, calls.drop_last()))
    }
}

/// All events that `calls` hand in, in order.
pub open spec fn received_by(calls: Seq<Call>) -> Seq<RawEvent>
    decreases calls.len(),
{
    if calls.len() == 0 {
        seq![]
    } else {
        received_by(calls.drop_last()) + calls.last().received()
    }
}

/// The two events differ at most in their context.
pub open spec fn same_event(a: RawEvent, b: RawEvent) -> bool {
    &&& a.n_type == b.n_type
    &&& a.n_tick == b.n_tick
    &&& a.scan == b.scan
    &&& a.virt == b.virt
    &&& a.data3 == b.data3
}

/// The test for the copies of an event.
pub open spec fn is_copy_of(x: RawEvent) -> spec_fn(RawEvent) -> bool {
    |e: RawEvent| same_event(e, x)
}

/// How many events in `s` are `x` but for their context.
pub open spec fn copies(s: Seq<RawEvent>, x: RawEvent) -> nat {
    s.filter(is_copy_of(x)).len()
}

/// 1 if `slot` holds `x`, but for the context, and 0 if not.
pub open spec fn held_in(events: Map<Slot, RawEvent>, slot: Slot, x: RawEvent) -> nat {
    if events.contains_key(slot) && same_event(events[slot], x) {
        1
    } else {
        0
    }
}

/// How many of the held events are `x` but for their context.
pub open spec fn held_copies(events: Map<Slot, RawEvent>, x: RawEvent) -> nat {
    held_in(events, (Btn::Jump, Edge::Press), x) + held_in(events, (Btn::Jump, Edge::Release), x)
        + held_in(events, (Btn::Crouch, Edge::Press), x) + held_in(
        events,
        (Btn::Crouch, Edge::Release),
        x,
    )
}

proof fn lemma_copies(s: Seq<RawEvent>, t: Seq<RawEvent>, e: RawEvent, x: RawEvent)
    ensures
        copies(s + t, x) == copies(s, x) + copies(t, x),
        copies(seq![e], x) == (if same_event(e, x) {
            1nat
        } else {
            0nat
        }),
        copies(seq![], x) == 0,
{
    let p = is_copy_of(x);
    Seq::filter_distributes_over_add(s, t, p);
    assert(Seq::<RawEvent>::empty().filter(p) =~= Seq::empty());
    reveal_with_fuel(Seq::filter, 2);
    assert(seq![e].drop_last() =~= Seq::<RawEvent>::empty());
}

/// The event of a due slot, or nothing.
spec fn event_if_due(desk: Desk, slot: Slot, now: u64) -> Seq<RawEvent> {
    if buffer::is_due(desk.held, slot, now) {
        seq![desk.events[slot]]
    } else {
        seq![]
    }
}

/// A flush hands on the events of the due slots one by one.
proof fn lemma_due(desk: Desk, now: u64)
    ensures
        desk.due(now) == (event_if_due(desk, desk.held.older(Btn::Jump), now) + event_if_due(
            desk,
            desk.held.newer(Btn::Jump),
            now,
        )) + (event_if_due(desk, desk.held.older(Btn::Crouch), now) + event_if_due(
            desk,
            desk.held.newer(Btn::Crouch),
            now,
        )),
{
    let f = |s: Slot| desk.events[s];
    let a = buffer::if_due(desk.held, desk.held.older(Btn::Jump), now);
    let b = buffer::if_due(desk.held, desk.held.newer(Btn::Jump), now);
    let c = buffer::if_due(desk.held, desk.held.older(Btn::Crouch), now);
    let d = buffer::if_due(desk.held, desk.held.newer(Btn::Crouch), now);
    assert(((a + b) + (c + d)).map_values(f) =~= (a.map_values(f) + b.map_values(f)) + (
    c.map_values(f) + d.map_values(f)));
    assert(a.map_values(f) =~= event_if_due(desk, desk.held.older(Btn::Jump), now));
    assert(b.map_values(f) =~= event_if_due(desk, desk.held.newer(Btn::Jump), now));
    assert(c.map_values(f) =~= event_if_due(desk, desk.held.older(Btn::Crouch), now));
    assert(d.map_values(f) =~= event_if_due(desk, desk.held.newer(Btn::Crouch), now));
}

/// A due slot gives up its event, and any other slot keeps it.
proof fn lemma_slot_balance(desk: Desk, now: u64, slot: Slot, x: RawEvent)
    requires
        desk.well_formed(),
    ensures
        held_in(desk.events, slot, x) == copies(event_if_due(desk, slot, now), x) + held_in(
            desk.after_flush(now).events,
            slot,
            x,
        ),
{
    lemma_copies(seq![], seq![], desk.events[slot], x);
    assert(desk.held.since.dom().contains(slot) <==> desk.events.dom().contains(slot));
}

proof fn lemma_flush_balance(desk: Desk, now: u64, x: RawEvent)
    requires
        desk.well_formed(),
    ensures
        held_copies(desk.events, x) == copies(desk.due(now), x) + held_copies(
            desk.after_flush(now).events,
            x,
        ),
        desk.after_flush(now).well_formed(),
{
    lemma_due(desk, now);
    let a = event_if_due(desk, desk.held.older(Btn::Jump), now);
    let b = event_if_due(desk, desk.held.newer(Btn::Jump), now);
    let c = event_if_due(desk, desk.held.older(Btn::Crouch), now);
    let d = event_if_due(desk, desk.held.newer(Btn::Crouch), now);
    lemma_copies(a + b, c + d, x, x);
    lemma_copies(a, b, x, x);
    lemma_copies(c, d, x, x);
    lemma_slot_balance(desk, now, (Btn::Jump, Edge::Press), x);
    lemma_slot_balance(desk, now, (Btn::Jump, Edge::Release), x);
    lemma_slot_balance(desk, now, (Btn::Crouch, Edge::Press), x);
    lemma_slot_balance(desk, now, (Btn::Crouch, Edge::Release), x);
    assert(desk.after_flush(now).held.since.dom() =~= desk.after_flush(now).events.dom()) by {
        assert forall|s: Slot| desk.held.since.dom().contains(s) <==> desk.events.dom().contains(s) by {}
    }
}

proof fn lemma_post_balance(
    desk: Desk,
    event: RawEvent,
    actions: Actions,
    now: u64,
    reemit_ctx: usize,
    x: RawEvent,
)
    requires
        desk.well_formed(),
    ensures
        copies(seq![event], x) + held_copies(desk.events, x) == copies(
            desk.act(event, actions, now, reemit_ctx).events(),
            x,
        ) + held_copies(desk.after_event(event, actions, now).events, x),
        desk.after_event(event, actions, now).well_formed(),
{
    let sent = event.spec_with_ctx(reemit_ctx);
    let after = desk.after_event(event, actions, now);
    lemma_copies(seq![], seq![], event, x);
    lemma_copies(seq![], seq![], sent, x);
    match desk.act(event, actions, now, reemit_ctx) {
        Act::FlushThenPass(h, e) => {
            assert(seq![h, e] =~= seq![h] + seq![e]);
            lemma_copies(seq![h], seq![e], h, x);
        },
        _ => {},
    }
    assert forall|s: Slot| desk.held.since.dom().contains(s) <==> desk.events.dom().contains(s) by {}
    assert(after.held.since.dom() =~= after.events.dom());
}

/// Every event is handed on exactly once, unchanged but for the context. Over any run
/// of events, flushes and changes of the setting, as many copies of an event have gone
/// out as came in, but for those still held, or held at the start. And every held slot
/// keeps its event.
pub proof fn law_every_raw_event_is_handed_on_once(start: Desk, calls: Seq<Call>, x: RawEvent)
    requires
        start.well_formed(),
    ensures
        copies(received_by(calls), x) + held_copies(start.events, x) == copies(
            sent_by(start, calls),
            x,
        ) + held_copies(desk_at(start, calls).events, x),
        desk_at(start, calls).well_formed(),
    decreases calls.len(),
{
    if calls.len() == 0 {
        assert(received_by(calls) == sent_by(start, calls));
    } else {
        let prev = calls.drop_last();
        let call = calls.last();
        let desk = desk_at(start, prev);
        law_every_raw_event_is_handed_on_once(start, prev, x);
        lemma_copies(received_by(prev), call.received(), x, x);
        lemma_copies(sent_by(start, prev), call.sent(desk), x, x);
        match call {
            Call::Post(event, actions, now, reemit_ctx) => {
                lemma_post_balance(desk, event, actions, now, reemit_ctx, x);
            },
            Call::Flush(now) => {
                lemma_flush_balance(desk, now, x);
            },
            Call::SetOptions(_) => {},
        }
    }
}

/// The call neither ends the wait of a press of `btn` held since `since` nor brings the
/// other press: a flush within the window, a release, another press of `btn`, an event
/// of another kind or another key, or a change of the setting.
pub open spec fn leaves_press(call: Call, btn: Btn, since: u64) -> bool {
    match call {
        Call::Post(event, actions, _, _) => match actions::spec_classify(actions, event.n_type) {
            Some((b, edge)) => b == btn || edge == Edge::Release,
            None => true,
        },
        Call::Flush(now) => now - since <= BUFFER_MS,
        Call::SetOptions(_) => true,
    }
}

/// A press that is held stays so, with its event, through calls that leave it alone, and
/// the other press does not come to be held.
proof fn lemma_press_waits(start: Desk, btn: Btn, calls: Seq<Call>)
    requires
        start.well_formed(),
        start.held.contains_key((btn, Edge::Press)),
        !start.held.contains_key((btn.spec_other(), Edge::Press)),
        forall|i: int|
            0 <= i < calls.len() ==> leaves_press(
                #[trigger] calls[i],
                btn,
                start.held[(btn, Edge::Press)],
            ),
    ensures
        ({
            let desk = desk_at(start, calls);
            &&& desk.held.contains_key((btn, Edge::Press))
            &&& desk.held[(btn, Edge::Press)] == start.held[(btn, Edge::Press)]
            &&& desk.events[(btn, Edge::Press)] == start.events[(btn, Edge::Press)]
            &&& !desk.held.contains_key((btn.spec_other(), Edge::Press))
        }),
    decreases calls.len(),
{
    if calls.len() > 0 {
        let prev = calls.drop_last();
        let press = (btn, Edge::Press);
        law_every_raw_event_is_handed_on_once(start, prev, start.events[press]);
        assert(desk_at(start, prev).events.dom().contains(press)
            == desk_at(start, prev).held.since.dom().contains(press));
        assert forall|i: int| 0 <= i < prev.len() implies leaves_press(
            #[trigger] prev[i],
            btn,
            start.held[(btn, Edge::Press)],
        ) by {
            assert(prev[i] == calls[i]);
        }
        lemma_press_waits(start, btn, prev);
        assert(leaves_press(calls[calls.len() - 1], btn, start.held[(btn, Edge::Press)]));
    }
}

/// While buffering is on, a jump or crouch press is swallowed, and handed on under its
/// own context right ahead of the press of the other, if that comes within the window.
/// Flushes within the window, releases, repeats of the held press, other keys and
/// changes of the setting may come in between.
pub proof fn law_kick_hands_on_both_presses(
    desk: Desk,
    btn: Btn,
    first: RawEvent,
    first_actions: Actions,
    first_time: u64,
    between: Seq<Call>,
    second: RawEvent,
    second_actions: Actions,
    second_time: u64,
    reemit_ctx: usize,
)
    requires
        desk.enabled,
        desk.well_formed(),
        !desk.held.contains_key((Btn::Jump, Edge::Press)),
        !desk.held.contains_key((Btn::Crouch, Edge::Press)),
        actions::spec_classify(first_actions, first.n_type) == Some((btn, Edge::Press)),
        forall|i: int|
            0 <= i < between.len() ==> leaves_press(#[trigger] between[i], btn, first_time),
        desk_at(desk.after_event(first, first_actions, first_time), between).enabled,
        actions::spec_classify(second_actions, second.n_type) == Some(
            (btn.spec_other(), Edge::Press),
        ),
        second_time - first_time <= BUFFER_MS,
    ensures
        desk.act(first, first_actions, first_time, reemit_ctx) == Act::Swallow,
        ({
            let waiting = desk_at(desk.after_event(first, first_actions, first_time), between);
            let after = waiting.after_event(second, second_actions, second_time);
            &&& waiting.act(second, second_actions, second_time, reemit_ctx) == Act::FlushThenPass(
                first,
                RawEvent {
                    ctx: reemit_ctx,
                    n_type: second.n_type,
                    n_tick: second.n_tick,
                    scan: second.scan,
                    virt: second.virt,
                    data3: second.data3,
                },
            )
            &&& !after.held.contains_key((Btn::Jump, Edge::Press))
            &&& !after.held.contains_key((Btn::Crouch, Edge::Press))
        }),
{
    let start = desk.after_event(first, first_actions, first_time);
    assert(start.held.contains_key((btn, Edge::Press)));
    assert(start.events[(btn, Edge::Press)] == first);
    lemma_press_waits(start, btn, between);
}

/// With buffering off, and for anything but a jump or crouch press or release, an event
/// goes through untouched and changes nothing.
pub proof fn law_untouched_unless_buffered(
    desk: Desk,
    event: RawEvent,
    actions: Actions,
    now: u64,
    reemit_ctx: usize,
)
    requires
        !desk.enabled || actions::spec_edge_of(event.n_type) is None || !actions.jump
            && !actions.spec_crouches(),
    ensures
        desk.act(event, actions, now, reemit_ctx) == Act::Pass(event),
        desk.after_event(event, actions, now) == desk,
{
}

/// An event under another context is the same event: only the context is another.
pub proof fn law_only_the_context_changes(event: RawEvent, ctx: usize)
    ensures
        event.spec_with_ctx(ctx).ctx == ctx,
        event.spec_with_ctx(ctx).n_type == event.n_type,
        event.spec_with_ctx(ctx).n_tick == event.n_tick,
        event.spec_with_ctx(ctx).scan == event.scan,
        event.spec_with_ctx(ctx).virt == event.virt,
        event.spec_with_ctx(ctx).data3 == event.data3,
{
}

/// With buffering off, for an event that is neither a press nor a release, and for a key
/// that is bound to none of jump, crouch and toggle crouch, the event goes through with
/// its context and everything else as it came, and what is held stays as it is.
pub proof fn law_goes_through_as_it_came(
    desk: Desk,
    event: RawEvent,
    actions: Actions,
    now: u64,
    reemit_ctx: usize,
)
    requires
        !desk.enabled || event.n_type != 0 && event.n_type != 1 || !actions.jump && !actions.crouch
            && !actions.toggle_crouch,
    ensures
        desk.act(event, actions, now, reemit_ctx) == Act::Pass(event),
        desk.after_event(event, actions, now) == desk,
{
}

/// While buffering is on, what becomes of a jump or crouch event goes by what is held:
/// - its slot is taken: it goes through under the other context, and nothing changes;
/// - its slot is free, and it is a press within 8 milliseconds of the held press of the
///   other button: that press goes out as it is held, then this one under the other
///   context, and no other slot changes;
/// - its slot is free otherwise: it goes into its slot as it came, context included, and
///   no other slot changes.
pub proof fn law_buffered_event_goes_by_what_is_held(
    desk: Desk,
    event: RawEvent,
    actions: Actions,
    btn: Btn,
    other: Btn,
    edge: Edge,
    now: u64,
    reemit_ctx: usize,
)
    requires
        desk.enabled,
        other != btn,
        event.n_type == (if edge == Edge::Press {
            0int
        } else {
            1int
        }),
        btn == Btn::Jump <==> actions.jump,
        btn == Btn::Crouch ==> actions.crouch || actions.toggle_crouch,
    ensures
        ({
            let act = desk.act(event, actions, now, reemit_ctx);
            let after = desk.after_event(event, actions, now);
            let came = (btn, edge);
            let partner = (other, Edge::Press);
            let passed = RawEvent {
                ctx: reemit_ctx,
                n_type: event.n_type,
                n_tick: event.n_tick,
                scan: event.scan,
                virt: event.virt,
                data3: event.data3,
            };
            if desk.held.since.contains_key(came) {
                &&& act == Act::Pass(passed)
                &&& after == desk
            } else if edge == Edge::Press && desk.held.since.contains_key(partner) && now
                - desk.held.since[partner] <= 8 {
                &&& act == Act::FlushThenPass(desk.events[partner], passed)
                &&& after.enabled
                &&& !after.held.since.contains_key(partner)
                &&& !after.events.contains_key(partner)
                &&& forall|s: Slot|
                    s != partner ==> (#[trigger] after.held.since.contains_key(s)
                        <==> desk.held.since.contains_key(s))
                &&& forall|s: Slot|
                    s != partner ==> (#[trigger] after.events.contains_key(s)
                        <==> desk.events.contains_key(s))
                &&& forall|s: Slot|
                    s != partner && desk.held.since.contains_key(s)
                        ==> #[trigger] after.held.since[s] == desk.held.since[s]
                &&& forall|s: Slot|
                    s != partner && desk.events.contains_key(s) ==> #[trigger] after.events[s]
                        == desk.events[s]
            } else {
                &&& act == Act::Swallow
                &&& after.enabled
                &&& after.held.since.contains_key(came)
                &&& after.held.since[came] == now
                &&& after.events.contains_key(came)
                &&& after.events[came] == event
                &&& forall|s: Slot|
                    s != came ==> (#[trigger] after.held.since.contains_key(s)
                        <==> desk.held.since.contains_key(s))
                &&& forall|s: Slot|
                    s != came ==> (#[trigger] after.events.contains_key(s)
                        <==> desk.events.contains_key(s))
                &&& forall|s: Slot|
                    s != came && desk.held.since.contains_key(s)
                        ==> #[trigger] after.held.since[s] == desk.held.since[s]
                &&& forall|s: Slot|
                    s != came && desk.events.contains_key(s) ==> #[trigger] after.events[s]
                        == desk.events[s]
            }
        }),
{
}

/// A flush hands on the event of each slot that has been held for more than 8
/// milliseconds, exactly as it is held, one for each slot that an update lets go and in
/// that order. The other slots keep their events, and the setting stays.
pub proof fn law_flush_hands_on_what_is_held(desk: Desk, now: u64)
    requires
        desk.well_formed(),
    ensures
        desk.due(now).len() == buffer::due_slots(desk.held, now).len(),
        forall|i: int|
            0 <= i < desk.due(now).len() ==> #[trigger] desk.due(now)[i]
                == desk.events[buffer::due_slots(desk.held, now)[i]],
        forall|s: Slot|
            #![trigger desk.held.since.contains_key(s)]
            desk.held.since.contains_key(s) && now - desk.held.since[s] > 8 ==> desk.due(
                now,
            ).contains(desk.events[s]) && !desk.after_flush(now).events.contains_key(s),
        forall|s: Slot|
            #![trigger desk.held.since.contains_key(s)]
            desk.held.since.contains_key(s) && now - desk.held.since[s] <= 8 ==> {
                &&& desk.after_flush(now).events.contains_key(s)
                &&& desk.after_flush(now).events[s] == desk.events[s]
                &&& desk.after_flush(now).held.since.contains_key(s)
                &&& desk.after_flush(now).held.since[s] == desk.held.since[s]
            },
        forall|s: Slot|
            !desk.held.since.contains_key(s) ==> !(
            #[trigger] desk.after_flush(now).events.contains_key(s)),
        desk.after_flush(now).enabled == desk.enabled,
{
    assert forall|s: Slot|
        #![trigger desk.held.since.contains_key(s)]
        desk.held.since.contains_key(s) && now - desk.held.since[s] > 8 implies desk.due(
        now,
    ).contains(desk.events[s]) && !desk.after_flush(now).events.contains_key(s) by {
        buffer::law_update_goes_by_the_window(desk.held, now, s);
        let due = buffer::due_slots(desk.held, now);
        let i = choose|i: int| 0 <= i < due.len() && due[i] == s;
        assert(desk.due(now)[i] == desk.events[s]);
    }
    assert forall|s: Slot| desk.held.since.dom().contains(s) <==> desk.events.dom().contains(
        s,
    ) by {}
}

/// The call leaves an event in `slot` held since `since`: it is neither a flush past the
/// window nor the press that makes a kick of it.
pub open spec fn leaves_slot(call: Call, slot: Slot, since: u64) -> bool {
    match call {
        Call::Post(event, actions, now, _) => match actions::spec_classify(
            actions,
            event.n_type,
        ) {
            Some((b, edge)) => !(slot.1 == Edge::Press && edge == Edge::Press && b != slot.0 && now
                - since <= 8),
            None => true,
        },
        Call::Flush(now) => now - since <= 8,
        Call::SetOptions(_) => true,
    }
}

proof fn lemma_slot_waits(start: Desk, slot: Slot, calls: Seq<Call>)
    requires
        start.well_formed(),
        start.held.since.contains_key(slot),
        forall|i: int|
            0 <= i < calls.len() ==> leaves_slot(
                #[trigger] calls[i],
                slot,
                start.held.since[slot],
            ),
    ensures
        desk_at(start, calls).held.since.contains_key(slot),
        desk_at(start, calls).held.since[slot] == start.held.since[slot],
        desk_at(start, calls).events[slot] == start.events[slot],
        desk_at(start, calls).well_formed(),
    decreases calls.len(),
{
    law_every_raw_event_is_handed_on_once(start, calls, start.events[slot]);
    if calls.len() > 0 {
        let prev = calls.drop_last();
        assert forall|i: int| 0 <= i < prev.len() implies leaves_slot(
            #[trigger] prev[i],
            slot,
            start.held.since[slot],
        ) by {
            assert(prev[i] == calls[i]);
        }
        lemma_slot_waits(start, slot, prev);
        assert(desk_at(start, prev).events.dom().contains(slot)
            == desk_at(start, prev).held.since.dom().contains(slot));
        assert(leaves_slot(calls[calls.len() - 1], slot, start.held.since[slot]));
    }
}

/// An event that is swallowed, press or release, goes out with the first flush more than
/// 8 milliseconds later, exactly as it came in, context included, unless a kick has let it
/// out before. In the meantime other events, flushes within the window and changes of the
/// setting leave it as it is.
pub proof fn law_swallowed_event_goes_out_as_it_came(
    desk: Desk,
    event: RawEvent,
    actions: Actions,
    btn: Btn,
    edge: Edge,
    since: u64,
    reemit_ctx: usize,
    between: Seq<Call>,
    now: u64,
)
    requires
        desk.well_formed(),
        actions::spec_classify(actions, event.n_type) == Some((btn, edge)),
        desk.act(event, actions, since, reemit_ctx) == Act::Swallow,
        forall|i: int|
            0 <= i < between.len() ==> leaves_slot(#[trigger] between[i], (btn, edge), since),
        now - since > 8,
    ensures
        ({
            let waiting = desk_at(desk.after_event(event, actions, since), between);
            &&& waiting.events[(btn, edge)] == event
            &&& waiting.due(now).contains(event)
        }),
{
    let start = desk.after_event(event, actions, since);
    lemma_post_balance(desk, event, actions, since, reemit_ctx, event);
    assert(start.held.since.contains_key((btn, edge)));
    lemma_slot_waits(start, (btn, edge), between);
    let waiting = desk_at(start, between);
    law_flush_hands_on_what_is_held(waiting, now);
}

} // verus!
