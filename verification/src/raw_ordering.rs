//! Whether the raw events of one button are handed on in the order in which they came.

use crate::actions;
use crate::buffer;
use crate::buffer::{Btn, Decision, Edge, Slot};
use crate::delivery;
use crate::delivery::Call;
use crate::dispatch::{Desk, RawEvent};
use crate::ordering;
use crate::timeline::Op;
use vstd::prelude::*;

verus! {

/// An event without its context, which may change on the way.
pub open spec fn payload(event: RawEvent) -> RawEvent {
    RawEvent {
        ctx: 0,
        n_type: event.n_type,
        n_tick: event.n_tick,
        scan: event.scan,
        virt: event.virt,
        data3: event.data3,
    }
}

/// An event that is handed on, with the button that it belongs to.
pub type Labelled = (Option<Btn>, RawEvent);

/// The events that a call hands on, in order, each with its button, if it has one.
pub open spec fn labelled(call: Call, desk: Desk) -> Seq<Labelled> {
    match call {
        Call::Post(event, actions, now, reemit_ctx) => {
            let passed = event.spec_with_ctx(reemit_ctx);
            match actions::spec_classify(actions, event.n_type) {
                Some((b, edge)) => if desk.enabled {
                    match buffer::decision(desk.held, b, edge, now) {
                        Decision::Pass => seq![(Some(b), passed)],
                        Decision::Hold => seq![],
                        Decision::FlushThenPass(fb, fe) => seq![
                            (Some(fb), desk.events[(fb, fe)]),
                            (Some(b), passed),
                        ],
                    }
                } else {
                    seq![(Some(b), event)]
                },
                None => seq![(None, event)],
            }
        },
        Call::Flush(now) => buffer::due_slots(desk.held, now).map_values(label_in(desk)),
        Call::SetOptions(_) => seq![],
    }
}

/// The event in a slot, with its button.
pub open spec fn label_in(desk: Desk) -> spec_fn(Slot) -> Labelled {
    |s: Slot| (Some(s.0), desk.events[s])
}

/// The labels are those of the events that are handed on.
pub proof fn law_labels_cover_what_is_sent(call: Call, desk: Desk)
    ensures
        labelled(call, desk).map_values(|l: Labelled| l.1) == call.sent(desk),
{
    assert(labelled(call, desk).map_values(|l: Labelled| l.1) =~= call.sent(desk));
}

/// The test for the events of one button.
pub open spec fn is_labelled(btn: Btn) -> spec_fn(Labelled) -> bool {
    |l: Labelled| l.0 == Some(btn)
}

/// The payload of a labelled event.
pub open spec fn unlabelled() -> spec_fn(Labelled) -> RawEvent {
    |l: Labelled| payload(l.1)
}

/// The events of `btn` among the labelled ones, in order, without their contexts.
pub open spec fn of_button(s: Seq<Labelled>, btn: Btn) -> Seq<RawEvent> {
    s.filter(is_labelled(btn)).map_values(unlabelled())
}

/// The event of `btn` that a call hands in, without its context.
pub open spec fn received_of(call: Call, btn: Btn) -> Seq<RawEvent> {
    match call {
        Call::Post(event, actions, _, _) => match actions::spec_classify(actions, event.n_type) {
            Some((b, _)) => if b == btn {
                seq![payload(event)]
            } else {
                seq![]
            },
            None => seq![],
        },
        _ => seq![],
    }
}

/// The event in a slot, without its context, if the slot is held.
pub open spec fn event_in(desk: Desk, slot: Slot) -> Seq<RawEvent> {
    if desk.held.contains_key(slot) {
        seq![payload(desk.events[slot])]
    } else {
        seq![]
    }
}

/// The held events of `btn`, in the order in which they came to be held, without their
/// contexts.
pub open spec fn queue_of(desk: Desk, btn: Btn) -> Seq<RawEvent> {
    event_in(desk, desk.held.older(btn)) + event_in(desk, desk.held.newer(btn))
}

/// The events of `btn` that a call hands on, followed by those held after it, are those
/// that were held, followed by the one that came in.
#[verifier::opaque]
pub open spec fn keeps_order(desk: Desk, call: Call, btn: Btn) -> bool {
    of_button(labelled(call, desk), btn) + queue_of(call.after(desk), btn) == queue_of(desk, btn)
        + received_of(call, btn)
}

/// `queue` holds an event other than `event`.
pub open spec fn holds_another(queue: Seq<RawEvent>, event: RawEvent) -> bool {
    ||| queue.len() > 0 && queue[0] != payload(event)
    ||| queue.len() > 1 && queue[1] != payload(event)
}

/// An incoming event brings it about that an event of `btn` is handed on ahead of an
/// older, different one that is held:
/// - it goes through at once, because buffering is off, its slot is taken or it makes a
///   kick, while another event of `btn` is held;
/// - it makes a kick of a held press of `btn`, while an older release is held.
pub open spec fn crowds(desk: Desk, call: Call, btn: Btn) -> bool {
    match call {
        Call::Post(event, actions, now, _) => match actions::spec_classify(
            actions,
            event.n_type,
        ) {
            Some((b, edge)) => {
                let taken = desk.held.since.contains_key((b, edge));
                let meets = ordering::meets_press(desk.held, b, edge, now);
                if b == btn {
                    &&& !desk.enabled || taken || meets
                    &&& holds_another(queue_of(desk, btn), event)
                } else {
                    &&& desk.enabled && !taken && meets
                    &&& queue_of(desk, btn)[0] != payload(desk.events[(btn, Edge::Press)])
                }
            },
            None => false,
        },
        _ => false,
    }
}

/// A flush hands on the newer event of `btn` while the older, different one is not due
/// yet. This takes a clock that has gone back between the two.
pub open spec fn skips(desk: Desk, call: Call, btn: Btn) -> bool {
    match call {
        Call::Flush(now) => {
            &&& ordering::skips(desk.held, Op::Update(now), btn)
            &&& payload(desk.events[desk.held.older(btn)]) != payload(
                desk.events[desk.held.newer(btn)],
            )
        },
        _ => false,
    }
}

/// What passes of at most two labelled events.
proof fn lemma_of_button(x: Labelled, y: Labelled, btn: Btn)
    ensures
        of_button(seq![], btn) == Seq::<RawEvent>::empty(),
        of_button(seq![x], btn) == (if x.0 == Some(btn) {
            seq![payload(x.1)]
        } else {
            seq![]
        }),
        of_button(seq![x, y], btn) == of_button(seq![x], btn) + of_button(seq![y], btn),
{
    reveal_with_fuel(Seq::filter, 3);
    let p = is_labelled(btn);
    assert(seq![x].drop_last() =~= Seq::<Labelled>::empty());
    assert(seq![y].drop_last() =~= Seq::<Labelled>::empty());
    assert(seq![x, y].drop_last() =~= seq![x]);
    assert(of_button(seq![], btn) =~= Seq::<RawEvent>::empty());
    assert(of_button(seq![x], btn) =~= if x.0 == Some(btn) {
        seq![payload(x.1)]
    } else {
        seq![]
    });
    assert(of_button(seq![x, y], btn) =~= of_button(seq![x], btn) + of_button(seq![y], btn));
}

/// Picking the events of a button goes part by part.
proof fn lemma_of_button_add(s: Seq<Labelled>, t: Seq<Labelled>, btn: Btn)
    ensures
        of_button(s + t, btn) == of_button(s, btn) + of_button(t, btn),
{
    let p = is_labelled(btn);
    Seq::filter_distributes_over_add(s, t, p);
    assert((s.filter(p) + t.filter(p)).map_values(unlabelled()) =~= s.filter(p).map_values(
        unlabelled(),
    ) + t.filter(p).map_values(unlabelled()));
}

/// A queue in full.
proof fn lemma_queue_of(desk: Desk, btn: Btn)
    ensures
        ({
            let a = desk.held.older(btn);
            let b = desk.held.newer(btn);
            let ea = payload(desk.events[a]);
            let eb = payload(desk.events[b]);
            queue_of(desk, btn) == (if desk.held.contains_key(a) && desk.held.contains_key(b) {
                seq![ea, eb]
            } else if desk.held.contains_key(a) {
                seq![ea]
            } else if desk.held.contains_key(b) {
                seq![eb]
            } else {
                seq![]
            })
        }),
{
}

/// An event that is held joins the end of its button's queue.
proof fn lemma_hold(desk: Desk, call: Call, btn: Btn)
    requires
        desk.enabled,
        call matches Call::Post(event, actions, now, _) && actions::spec_classify(
            actions,
            event.n_type,
        ) matches Some((b, edge)) && buffer::decision(desk.held, b, edge, now) == Decision::Hold,
    ensures
        keeps_order(desk, call, btn),
{
    reveal(keeps_order);
    match call {
        Call::Post(event, actions, now, _) => {
            let came = actions::spec_classify(actions, event.n_type)->0;
            let after = call.after(desk);
            let before = queue_of(desk, btn);
            let next = queue_of(after, btn);
            lemma_of_button((None, event), (None, event), btn);
            lemma_queue_of(desk, btn);
            lemma_queue_of(after, btn);
            if came.0 == btn {
                let opposite = (btn, came.1.opposite());
                assert(after.held.older(btn) == opposite);
                assert(after.held.newer(btn) == came);
                assert(after.events[came] == event);
                assert(after.events[opposite] == desk.events[opposite]);
                if desk.held.contains_key(opposite) {
                    assert(before =~= seq![payload(desk.events[opposite])]);
                } else {
                    assert(before =~= seq![]);
                }
                assert(seq![] + next =~= before + seq![payload(event)]);
            } else {
                assert(next == before);
                assert(seq![] + next =~= before + seq![]);
            }
        },
        _ => {},
    }
}

/// An event that goes through on its own keeps its button in order unless another event
/// of the button is held.
proof fn lemma_through(desk: Desk, call: Call, btn: Btn)
    requires
        call matches Call::Post(event, actions, now, _) && (actions::spec_classify(
            actions,
            event.n_type,
        ) matches Some((b, edge)) ==> desk.enabled ==> buffer::decision(desk.held, b, edge, now)
            == Decision::Pass),
    ensures
        keeps_order(desk, call, btn) <==> !crowds(desk, call, btn),
{
    reveal(keeps_order);
    match call {
        Call::Post(event, actions, now, reemit_ctx) => {
            let before = queue_of(desk, btn);
            let out = labelled(call, desk)[0];
            lemma_of_button(out, out, btn);
            assert(labelled(call, desk) =~= seq![out]);
            assert(payload(out.1) == payload(event));
            assert(call.after(desk) == desk);
            lemma_queue_of(desk, btn);
            if out.0 == Some(btn) {
                ordering::lemma_front_or_back(before, payload(event));
            } else {
                assert(seq![] + before =~= before + seq![]);
            }
        },
        _ => {},
    }
}

/// A kick keeps the button that came in order if no other event of it is held, and the
/// other button if the press that it sets free is the oldest of that button.
proof fn lemma_kick(desk: Desk, call: Call, btn: Btn)
    requires
        desk.enabled,
        call matches Call::Post(event, actions, now, _) && actions::spec_classify(
            actions,
            event.n_type,
        ) matches Some((b, edge)) && buffer::decision(desk.held, b, edge, now) is FlushThenPass,
    ensures
        keeps_order(desk, call, btn) <==> !crowds(desk, call, btn),
{
    reveal(keeps_order);
    match call {
        Call::Post(event, actions, now, reemit_ctx) => {
            let came = actions::spec_classify(actions, event.n_type)->0;
            let partner = (came.0.spec_other(), Edge::Press);
            let freed: Labelled = (Some(partner.0), desk.events[partner]);
            let passed: Labelled = (Some(came.0), event.spec_with_ctx(reemit_ctx));
            let after = call.after(desk);
            let before = queue_of(desk, btn);
            let next = queue_of(after, btn);
            assert(labelled(call, desk) =~= seq![freed, passed]);
            lemma_of_button(freed, passed, btn);
            lemma_of_button(passed, passed, btn);
            lemma_queue_of(desk, btn);
            lemma_queue_of(after, btn);
            assert(payload(passed.1) == payload(event));
            if came.0 == btn {
                assert(seq![] + seq![payload(event)] =~= seq![payload(event)]);
                assert(next == before);
                ordering::lemma_front_or_back(before, payload(event));
            } else {
                let x = payload(freed.1);
                assert(seq![x] + seq![] =~= seq![x]);
                assert(before + seq![] =~= before);
                assert((seq![x] + next)[0] == x);
                if before[0] == x {
                    assert(seq![x] + next =~= before);
                }
            }
        },
        _ => {},
    }
}

/// The event in a slot, without its context, if the slot is due.
spec fn due_in(desk: Desk, slot: Slot, now: u64) -> Seq<RawEvent> {
    if buffer::is_due(desk.held, slot, now) {
        seq![payload(desk.events[slot])]
    } else {
        seq![]
    }
}

/// What a flush hands on of one button, seen from another button or from itself.
proof fn lemma_due_labels(desk: Desk, now: u64, of: Btn, btn: Btn)
    ensures
        of_button(buffer::due_of(desk.held, of, now).map_values(label_in(desk)), btn) == (if of
            == btn {
            due_in(desk, desk.held.older(of), now) + due_in(desk, desk.held.newer(of), now)
        } else {
            seq![]
        }),
{
    let f = label_in(desk);
    let sa = desk.held.older(of);
    let sb = desk.held.newer(of);
    let a = buffer::if_due(desk.held, sa, now);
    let b = buffer::if_due(desk.held, sb, now);
    assert((a + b).map_values(f) =~= a.map_values(f) + b.map_values(f));
    lemma_of_button_add(a.map_values(f), b.map_values(f), btn);
    lemma_of_button(f(sa), f(sb), btn);
    lemma_of_button(f(sb), f(sb), btn);
    assert(a.map_values(f) =~= if buffer::is_due(desk.held, sa, now) {
        seq![f(sa)]
    } else {
        seq![]
    });
    assert(b.map_values(f) =~= if buffer::is_due(desk.held, sb, now) {
        seq![f(sb)]
    } else {
        seq![]
    });
    if of != btn {
        assert(Seq::<RawEvent>::empty() + Seq::<RawEvent>::empty() =~= seq![]);
    }
}

/// What a flush hands on of one button.
proof fn lemma_flush_labels(desk: Desk, now: u64, btn: Btn)
    ensures
        of_button(labelled(Call::Flush(now), desk), btn) == due_in(
            desk,
            desk.held.older(btn),
            now,
        ) + due_in(desk, desk.held.newer(btn), now),
{
    let f = label_in(desk);
    let jump = buffer::due_of(desk.held, Btn::Jump, now);
    let crouch = buffer::due_of(desk.held, Btn::Crouch, now);
    assert((jump + crouch).map_values(f) =~= jump.map_values(f) + crouch.map_values(f));
    lemma_of_button_add(jump.map_values(f), crouch.map_values(f), btn);
    lemma_due_labels(desk, now, Btn::Jump, btn);
    lemma_due_labels(desk, now, Btn::Crouch, btn);
    let out = due_in(desk, desk.held.older(btn), now) + due_in(desk, desk.held.newer(btn), now);
    assert(out + seq![] =~= out);
    assert(seq![] + out =~= out);
}

/// A flush keeps a button in order unless it skips an older event.
proof fn lemma_flush(desk: Desk, now: u64, btn: Btn)
    requires
        desk.well_formed(),
    ensures
        keeps_order(desk, Call::Flush(now), btn) <==> !skips(desk, Call::Flush(now), btn),
{
    reveal(keeps_order);
    let after = desk.after_flush(now);
    let a = desk.held.older(btn);
    let b = desk.held.newer(btn);
    let ea = payload(desk.events[a]);
    let eb = payload(desk.events[b]);
    let da = buffer::is_due(desk.held, a, now);
    let db = buffer::is_due(desk.held, b, now);
    let out = due_in(desk, a, now) + due_in(desk, b, now);
    let rest = queue_of(after, btn);
    lemma_flush_labels(desk, now, btn);
    lemma_queue_of(desk, btn);
    lemma_queue_of(after, btn);
    assert(queue_of(desk, btn) + seq![] =~= queue_of(desk, btn));
    assert(desk.held.since.dom().contains(a) == desk.events.dom().contains(a));
    assert(desk.held.since.dom().contains(b) == desk.events.dom().contains(b));
    assert(after.held.contains_key(a) == (desk.held.contains_key(a) && !da));
    assert(after.held.contains_key(b) == (desk.held.contains_key(b) && !db));
    if desk.held.contains_key(a) && desk.held.contains_key(b) {
        if da && db {
            assert(out =~= seq![ea, eb]);
        } else if da {
            assert(out =~= seq![ea]);
        } else if db {
            assert(out =~= seq![eb]);
        } else {
            assert(out =~= seq![]);
        }
        ordering::lemma_take_out(ea, eb, out, rest, da, db);
    } else {
        assert(out + rest =~= queue_of(desk, btn));
    }
}

/// A call keeps the raw events of a button in order if and only if it lets none overtake
/// an older, different one.
pub proof fn law_raw_order_kept_unless_overtaken(desk: Desk, call: Call, btn: Btn)
    requires
        desk.well_formed(),
    ensures
        keeps_order(desk, call, btn) <==> !crowds(desk, call, btn) && !skips(desk, call, btn),
{
    match call {
        Call::Post(event, actions, now, _) => match actions::spec_classify(
            actions,
            event.n_type,
        ) {
            Some((b, edge)) if desk.enabled => match buffer::decision(desk.held, b, edge, now) {
                Decision::Hold => {
                    lemma_hold(desk, call, btn);
                },
                Decision::Pass => {
                    lemma_through(desk, call, btn);
                },
                Decision::FlushThenPass(_, _) => {
                    lemma_kick(desk, call, btn);
                },
            },
            _ => {
                lemma_through(desk, call, btn);
            },
        },
        Call::Flush(now) => {
            lemma_flush(desk, now, btn);
        },
        Call::SetOptions(_) => {
            reveal(keeps_order);
            lemma_of_button((None, arbitrary()), (None, arbitrary()), btn);
            lemma_queue_of(desk, btn);
            lemma_queue_of(call.after(desk), btn);
            assert(seq![] + queue_of(desk, btn) =~= queue_of(desk, btn) + seq![]);
        },
    }
}

/// All events that `calls` hand on, in order, each with its button.
pub open spec fn labelled_by(start: Desk, calls: Seq<Call>) -> Seq<Labelled>
    decreases calls.len(),
{
    if calls.len() == 0 {
        seq![]
    } else {
        labelled_by(start, calls.drop_last()) + labelled(
            calls.last(),
            delivery::desk_at(start, calls.drop_last()),
        )
    }
}

/// All events of `btn` that `calls` hand in, in order, without their contexts.
pub open spec fn received_of_by(calls: Seq<Call>, btn: Btn) -> Seq<RawEvent>
    decreases calls.len(),
{
    if calls.len() == 0 {
        seq![]
    } else {
        received_of_by(calls.drop_last(), btn) + received_of(calls.last(), btn)
    }
}

/// As long as no call lets a raw event of a button overtake an older one, the events that
/// were held at the start and those that came in since have been handed on in that order,
/// unchanged but for the context, and the rest is held, in that order too.
pub proof fn law_raw_order_survives(start: Desk, calls: Seq<Call>, btn: Btn)
    requires
        start.well_formed(),
        forall|n: int|
            0 <= n < calls.len() ==> {
                let desk = delivery::desk_at(start, #[trigger] calls.take(n));
                !crowds(desk, calls[n], btn) && !skips(desk, calls[n], btn)
            },
    ensures
        queue_of(start, btn) + received_of_by(calls, btn) == of_button(
            labelled_by(start, calls),
            btn,
        ) + queue_of(delivery::desk_at(start, calls), btn),
        labelled_by(start, calls).map_values(|l: Labelled| l.1) == delivery::sent_by(start, calls),
    decreases calls.len(),
{
    if calls.len() == 0 {
        lemma_of_button((None, arbitrary()), (None, arbitrary()), btn);
        assert(queue_of(start, btn) + seq![] =~= seq![] + queue_of(start, btn));
        assert(labelled_by(start, calls).map_values(|l: Labelled| l.1) =~= delivery::sent_by(
            start,
            calls,
        ));
    } else {
        let prev = calls.drop_last();
        let call = calls.last();
        let desk = delivery::desk_at(start, prev);
        assert forall|n: int| 0 <= n < prev.len() implies {
            let desk = delivery::desk_at(start, #[trigger] prev.take(n));
            !crowds(desk, prev[n], btn) && !skips(desk, prev[n], btn)
        } by {
            assert(prev.take(n) =~= calls.take(n));
        }
        law_raw_order_survives(start, prev, btn);
        delivery::law_every_raw_event_is_handed_on_once(start, prev, arbitrary());
        assert(calls.take(calls.len() - 1) =~= prev);
        law_raw_order_kept_unless_overtaken(desk, call, btn);
        law_labels_cover_what_is_sent(call, desk);
        lemma_of_button_add(labelled_by(start, prev), labelled(call, desk), btn);
        lemma_extend_run(
            queue_of(start, btn),
            received_of_by(prev, btn),
            received_of(call, btn),
            of_button(labelled_by(start, prev), btn),
            of_button(labelled(call, desk), btn),
            queue_of(desk, btn),
            queue_of(call.after(desk), btn),
            desk,
            call,
            btn,
        );
        let f = |l: Labelled| l.1;
        assert((labelled_by(start, prev) + labelled(call, desk)).map_values(f) =~= labelled_by(
            start,
            prev,
        ).map_values(f) + labelled(call, desk).map_values(f));
    }
}

/// A run that has stayed in order stays so when a call that keeps the order is added.
proof fn lemma_extend_run(
    first: Seq<RawEvent>,
    received: Seq<RawEvent>,
    came: Seq<RawEvent>,
    sent: Seq<RawEvent>,
    out: Seq<RawEvent>,
    queue: Seq<RawEvent>,
    next: Seq<RawEvent>,
    desk: Desk,
    call: Call,
    btn: Btn,
)
    requires
        first + received == sent + queue,
        keeps_order(desk, call, btn),
        came == received_of(call, btn),
        out == of_button(labelled(call, desk), btn),
        queue == queue_of(desk, btn),
        next == queue_of(call.after(desk), btn),
    ensures
        first + (received + came) == (sent + out) + next,
{
    reveal(keeps_order);
    ordering::lemma_extend(sent, out, next, queue, came);
    assert(first + (received + came) =~= (first + received) + came);
}

/// The time of a call, if it has one, and otherwise the time `last` of the one before.
pub open spec fn time_after(call: Call, last: u64) -> u64 {
    match call {
        Call::Post(_, _, now, _) => now,
        Call::Flush(now) => now,
        Call::SetOptions(_) => last,
    }
}

/// The time of the last of `calls` that has one.
pub open spec fn last_time(calls: Seq<Call>) -> u64
    decreases calls.len(),
{
    if calls.len() == 0 {
        0
    } else {
        time_after(calls.last(), last_time(calls.drop_last()))
    }
}

/// The times of the calls never go back.
pub open spec fn times_ascend(calls: Seq<Call>) -> bool {
    forall|n: int|
        0 <= n < calls.len() ==> last_time(#[trigger] calls.take(n)) <= last_time(
            calls.take(n + 1),
        )
}

/// On a clock that does not go back, and for a dispatcher that starts with nothing held,
/// the raw events of a button are handed on in the order in which they came, however
/// close together, as long as none goes through at once, and no kick is made, past an
/// older event of the button.
pub proof fn law_raw_order_survives_on_a_clock(start: Desk, calls: Seq<Call>, btn: Btn)
    requires
        start.held == buffer::Held::empty(),
        start.well_formed(),
        times_ascend(calls),
        forall|n: int|
            0 <= n < calls.len() ==> !crowds(
                delivery::desk_at(start, #[trigger] calls.take(n)),
                calls[n],
                btn,
            ),
    ensures
        received_of_by(calls, btn) == of_button(labelled_by(start, calls), btn) + queue_of(
            delivery::desk_at(start, calls),
            btn,
        ),
        labelled_by(start, calls).map_values(|l: Labelled| l.1) == delivery::sent_by(start, calls),
{
    assert forall|n: int| 0 <= n < calls.len() implies {
        let desk = delivery::desk_at(start, #[trigger] calls.take(n));
        !crowds(desk, calls[n], btn) && !skips(desk, calls[n], btn)
    } by {
        let desk = delivery::desk_at(start, calls.take(n));
        lemma_run_fits_clock(start, calls, n);
        match calls[n] {
            Call::Flush(now) => {
                ordering::lemma_clock_rules_out_skips(
                    desk.held,
                    Op::Update(now),
                    last_time(calls.take(n)),
                    btn,
                );
            },
            _ => {},
        }
    }
    law_raw_order_survives(start, calls, btn);
    lemma_queue_of(start, btn);
    assert(seq![] + received_of_by(calls, btn) =~= received_of_by(calls, btn));
}

proof fn lemma_run_fits_clock(start: Desk, calls: Seq<Call>, n: int)
    requires
        0 <= n <= calls.len(),
        start.held == buffer::Held::empty(),
        times_ascend(calls),
    ensures
        ordering::fits_clock(
            delivery::desk_at(start, calls.take(n)).held,
            last_time(calls.take(n)),
        ),
    decreases n,
{
    if n > 0 {
        lemma_run_fits_clock(start, calls, n - 1);
        let prev = calls.take(n - 1);
        let call = calls[n - 1];
        let held = delivery::desk_at(start, prev).held;
        assert(calls.take(n).drop_last() =~= prev);
        assert(calls.take(n).last() == call);
        assert(calls.take(n - 1 + 1) == calls.take(n));
        let last = last_time(prev);
        assert(last <= last_time(calls.take(n)));
        match call {
            Call::Post(event, actions, now, _) => {
                match actions::spec_classify(actions, event.n_type) {
                    Some((b, edge)) => {
                        ordering::lemma_fits_clock(held, Op::Event(b, edge, now), last);
                    },
                    None => {},
                }
                assert(ordering::fits_clock(held, now)) by {
                    assert forall|s: Slot| #[trigger] held.contains_key(s) implies held[s]
                        <= now by {}
                }
            },
            Call::Flush(now) => {
                ordering::lemma_fits_clock(held, Op::Update(now), last);
            },
            Call::SetOptions(_) => {},
        }
    }
}

} // verus!
