//! Whether the events of one button go out in the order in which they came in.

use crate::buffer;
use crate::buffer::{Btn, Decision, Edge, Held, Slot, BUFFER_MS};
use crate::timeline;
use crate::timeline::Op;
use vstd::prelude::*;

verus! {

/// The test for the events of one button.
pub open spec fn is_of(btn: Btn) -> spec_fn(Slot) -> bool {
    |s: Slot| s.0 == btn
}

/// The slot alone if it is held, and nothing otherwise.
pub open spec fn if_held(held: Held, slot: Slot) -> Seq<Slot> {
    if held.contains_key(slot) {
        seq![slot]
    } else {
        seq![]
    }
}

/// The held slots of one button, in the order in which they came to be held.
pub open spec fn queue(held: Held, btn: Btn) -> Seq<Slot> {
    if_held(held, held.older(btn)) + if_held(held, held.newer(btn))
}

/// The events of `btn` that a call lets out, followed by those held after it, are those
/// that were held, followed by the one that came in.
#[verifier::opaque]
pub open spec fn keeps_order(held: Held, op: Op, btn: Btn) -> bool {
    op.emitted(held).filter(is_of(btn)) + queue(op.held_after(held), btn) == queue(held, btn)
        + op.received().filter(is_of(btn))
}

/// An event lets out an event of `btn` ahead of an older one that is held:
/// - it passes because its slot is taken, while the other slot of `btn` is held too;
/// - it is a press of `btn` that makes a kick, while a release of `btn` is held;
/// - it makes a kick of a held press of `btn`, while an older release is held.
pub open spec fn crowds(held: Held, op: Op, btn: Btn) -> bool {
    match op {
        Op::Event(b, edge, now) => if held.since.contains_key((b, edge)) {
            &&& b == btn
            &&& held.since.contains_key((btn, Edge::Press))
            &&& held.since.contains_key((btn, Edge::Release))
        } else {
            &&& meets_press(held, b, edge, now)
            &&& held.since.contains_key((btn, Edge::Release))
            &&& b == btn || held.newest[btn] == Edge::Press
        },
        Op::Update(_) => false,
    }
}

/// The event is a press, and the press of the other button is held and within its window.
pub open spec fn meets_press(held: Held, btn: Btn, edge: Edge, now: u64) -> bool {
    edge == Edge::Press && match btn {
        Btn::Jump => held.since.contains_key((Btn::Crouch, Edge::Press)) && now - held.since[(
            Btn::Crouch,
            Edge::Press,
        )] <= BUFFER_MS,
        Btn::Crouch => held.since.contains_key((Btn::Jump, Edge::Press)) && now - held.since[(
            Btn::Jump,
            Edge::Press,
        )] <= BUFFER_MS,
    }
}

/// An update lets out the newer event of `btn` while the older one is not due yet. This
/// takes a clock that has gone back between the two.
pub open spec fn skips(held: Held, op: Op, btn: Btn) -> bool {
    match op {
        Op::Event(_, _, _) => false,
        Op::Update(now) => {
            &&& held.contains_key(held.older(btn))
            &&& !buffer::is_due(held, held.older(btn), now)
            &&& buffer::is_due(held, held.newer(btn), now)
        },
    }
}

/// What passes of at most two events.
proof fn lemma_filter_small(x: Slot, y: Slot, p: spec_fn(Slot) -> bool)
    ensures
        Seq::<Slot>::empty().filter(p) == Seq::<Slot>::empty(),
        seq![x].filter(p) == (if p(x) {
            seq![x]
        } else {
            seq![]
        }),
        seq![x, y].filter(p) == seq![x].filter(p) + seq![y].filter(p),
{
    reveal_with_fuel(Seq::filter, 3);
    assert(seq![x].drop_last() =~= Seq::<Slot>::empty());
    assert(seq![y].drop_last() =~= Seq::<Slot>::empty());
    assert(seq![x, y].drop_last() =~= seq![x]);
    assert(Seq::<Slot>::empty().filter(p) =~= Seq::<Slot>::empty());
    assert(seq![x, y].filter(p) =~= seq![x].filter(p) + seq![y].filter(p));
}

/// A queue in full.
proof fn lemma_queue(held: Held, btn: Btn)
    ensures
        ({
            let a = held.older(btn);
            let b = held.newer(btn);
            queue(held, btn) == (if held.contains_key(a) && held.contains_key(b) {
                seq![a, b]
            } else if held.contains_key(a) {
                seq![a]
            } else if held.contains_key(b) {
                seq![b]
            } else {
                seq![]
            })
        }),
{
}

/// A queue with an event put in front is the same as with it put at the end exactly
/// when the queue holds nothing else.
pub(crate) proof fn lemma_front_or_back<T>(queue: Seq<T>, x: T)
    requires
        queue.len() <= 2,
    ensures
        seq![x] + queue == queue + seq![x] <==> (queue.len() > 0 ==> queue[0] == x) && (queue.len()
            > 1 ==> queue[1] == x),
{
    let l = seq![x] + queue;
    let r = queue + seq![x];
    if queue.len() == 0 {
        assert(l =~= r);
    } else if queue.len() == 1 {
        assert(l[0] == x && r[0] == queue[0]);
        if queue[0] == x {
            assert(l =~= r);
        }
    } else {
        assert(l[0] == x && r[0] == queue[0]);
        assert(l[1] == queue[0] && r[1] == queue[1]);
        if queue[0] == x && queue[1] == x {
            assert(l =~= r);
        }
    }
}

/// An event that is held joins the end of its button's queue.
proof fn lemma_hold(held: Held, b: Btn, edge: Edge, now: u64, btn: Btn)
    requires
        buffer::decision(held, b, edge, now) == Decision::Hold,
    ensures
        keeps_order(held, Op::Event(b, edge, now), btn),
{
    reveal(keeps_order);
    let came = (b, edge);
    let after = held.with(came, now);
    lemma_filter_small(came, came, is_of(btn));
    lemma_queue(held, btn);
    lemma_queue(after, btn);
    let before = queue(held, btn);
    let next = queue(after, btn);
    if b == btn {
        assert(after.older(btn) == (b, edge.opposite()));
        assert(after.newer(btn) == came);
        if held.contains_key((b, edge.opposite())) {
            assert(before =~= seq![(b, edge.opposite())]);
        } else {
            assert(before =~= seq![]);
        }
        assert(seq![] + next =~= before + seq![came]);
    } else {
        assert(next == before);
        assert(seq![] + next =~= before + seq![]);
    }
}

/// An event that passes keeps its button in order unless the other slot is held too.
proof fn lemma_pass(held: Held, b: Btn, edge: Edge, now: u64, btn: Btn)
    requires
        buffer::decision(held, b, edge, now) == Decision::Pass,
    ensures
        keeps_order(held, Op::Event(b, edge, now), btn) <==> !(b == btn && held.contains_key(
            (btn, edge.opposite()),
        )),
{
    reveal(keeps_order);
    let came = (b, edge);
    let before = queue(held, btn);
    lemma_filter_small(came, came, is_of(btn));
    lemma_queue(held, btn);
    if b == btn {
        lemma_front_or_back(before, came);
        assert(came == held.older(btn) || came == held.newer(btn));
    } else {
        assert(seq![] + before =~= before + seq![]);
    }
}

/// A kick keeps the button that came in order if no release of it is held, and the other
/// button if the press that it sets free is the oldest of that button.
proof fn lemma_flush(held: Held, b: Btn, edge: Edge, now: u64, btn: Btn)
    requires
        buffer::decision(held, b, edge, now) is FlushThenPass,
    ensures
        keeps_order(held, Op::Event(b, edge, now), btn) <==> !(held.contains_key(
            (btn, Edge::Release),
        ) && (b == btn || held.older(btn) == (btn, Edge::Release))),
{
    reveal(keeps_order);
    let came = (b, edge);
    let partner = (b.spec_other(), Edge::Press);
    let after = held.without(partner);
    let before = queue(held, btn);
    let next = queue(after, btn);
    lemma_filter_small(partner, came, is_of(btn));
    lemma_filter_small(came, came, is_of(btn));
    lemma_queue(held, btn);
    lemma_queue(after, btn);
    if b == btn {
        assert(seq![] + seq![came] =~= seq![came]);
        assert(next == before);
        lemma_front_or_back(before, came);
        assert(held.older(btn) == came || held.newer(btn) == came);
    } else {
        assert(seq![partner] + seq![] =~= seq![partner]);
        assert(before + seq![] =~= before);
        assert((seq![partner] + next)[0] == partner);
        if held.contains_key((btn, Edge::Release)) && held.older(btn) == (btn, Edge::Release) {
            assert(before[0] == (btn, Edge::Release));
        } else {
            assert(seq![partner] + next =~= before);
        }
    }
}

/// What an update lets out of one button.
proof fn lemma_due_of(held: Held, now: u64, btn: Btn)
    ensures
        buffer::due_slots(held, now).filter(is_of(btn)) == buffer::due_of(held, btn, now),
{
    let p = is_of(btn);
    let jump = buffer::due_of(held, Btn::Jump, now);
    let crouch = buffer::due_of(held, Btn::Crouch, now);
    Seq::filter_distributes_over_add(jump, crouch, p);
    lemma_filter_due_of(held, now, Btn::Jump, btn);
    lemma_filter_due_of(held, now, Btn::Crouch, btn);
    assert(jump + seq![] =~= jump);
    assert(seq![] + crouch =~= crouch);
}

proof fn lemma_filter_due_of(held: Held, now: u64, of: Btn, btn: Btn)
    ensures
        buffer::due_of(held, of, now).filter(is_of(btn)) == (if of == btn {
            buffer::due_of(held, of, now)
        } else {
            seq![]
        }),
{
    let p = is_of(btn);
    let a = buffer::if_due(held, held.older(of), now);
    let b = buffer::if_due(held, held.newer(of), now);
    Seq::filter_distributes_over_add(a, b, p);
    lemma_filter_small(held.older(of), held.newer(of), p);
    lemma_filter_small(held.newer(of), held.newer(of), p);
    if of == btn {
        assert(a.filter(p) =~= a);
        assert(b.filter(p) =~= b);
    } else {
        assert(a.filter(p) =~= seq![]);
        assert(b.filter(p) =~= seq![]);
        assert(Seq::<Slot>::empty() + Seq::<Slot>::empty() =~= seq![]);
    }
}

/// Taking slots out of a queue of two and putting them in front of the rest gives the
/// queue back unless the newer one is taken alone.
pub(crate) proof fn lemma_take_out<T>(a: T, b: T, out: Seq<T>, rest: Seq<T>, da: bool, db: bool)
    requires
        out == (if da && db {
            seq![a, b]
        } else if da {
            seq![a]
        } else if db {
            seq![b]
        } else {
            seq![]
        }),
        rest == (if da && db {
            seq![]
        } else if da {
            seq![b]
        } else if db {
            seq![a]
        } else {
            seq![a, b]
        }),
    ensures
        out + rest == seq![a, b] <==> (da || !db || a == b),
{
    let all = out + rest;
    assert(all.len() == 2);
    if !da && db {
        assert(all[0] == b && all[1] == a);
        assert(seq![a, b][0] == a);
        if a == b {
            assert(all =~= seq![a, b]);
        }
    } else {
        assert(all =~= seq![a, b]);
    }
}

/// What an update does to the order of one button.
proof fn lemma_update(held: Held, now: u64, btn: Btn)
    ensures
        keeps_order(held, Op::Update(now), btn) <==> !skips(held, Op::Update(now), btn),
{
    reveal(keeps_order);
    let after = buffer::held_after_update(held, now);
    let a = held.older(btn);
    let b = held.newer(btn);
    let da = buffer::is_due(held, a, now);
    let db = buffer::is_due(held, b, now);
    let out = buffer::due_of(held, btn, now);
    let rest = queue(after, btn);
    lemma_due_of(held, now, btn);
    lemma_filter_small(a, b, is_of(btn));
    lemma_queue(held, btn);
    lemma_queue(after, btn);
    assert(queue(held, btn) + seq![] =~= queue(held, btn));
    assert(after.contains_key(a) == (held.contains_key(a) && !da));
    assert(after.contains_key(b) == (held.contains_key(b) && !db));
    if held.contains_key(a) && held.contains_key(b) {
        if da && db {
            assert(out =~= seq![a, b]);
        } else if da {
            assert(out =~= seq![a]);
        } else if db {
            assert(out =~= seq![b]);
        } else {
            assert(out =~= seq![]);
        }
        lemma_take_out(a, b, out, rest, da, db);
    } else {
        assert(out + rest =~= queue(held, btn));
    }
}

/// A call keeps the events of a button in order if and only if it lets none overtake an
/// older one.
pub proof fn law_order_kept_unless_overtaken(held: Held, op: Op, btn: Btn)
    ensures
        keeps_order(held, op, btn) <==> !crowds(held, op, btn) && !skips(held, op, btn),
{
    match op {
        Op::Event(b, edge, now) => match buffer::decision(held, b, edge, now) {
            Decision::Hold => {
                lemma_hold(held, b, edge, now, btn);
            },
            Decision::Pass => {
                lemma_pass(held, b, edge, now, btn);
            },
            Decision::FlushThenPass(_, _) => {
                lemma_flush(held, b, edge, now, btn);
            },
        },
        Op::Update(now) => {
            lemma_update(held, now, btn);
        },
    }
}

/// Two runs of events stay in step when each is extended in order.
pub(crate) proof fn lemma_extend<T>(
    a: Seq<T>,
    b: Seq<T>,
    next: Seq<T>,
    queue: Seq<T>,
    r: Seq<T>,
)
    requires
        b + next == queue + r,
    ensures
        (a + b) + next == (a + queue) + r,
{
    assert((a + b) + next =~= a + (b + next));
    assert((a + queue) + r =~= a + (queue + r));
}

/// As long as no call lets an event of a button overtake an older one, the events of
/// that button have gone out in the order in which they came in, and the rest is held,
/// in that order too.
pub proof fn law_order_survives(ops: Seq<Op>, btn: Btn)
    requires
        forall|n: int|
            0 <= n < ops.len() ==> {
                let held = timeline::held_at(Held::empty(), #[trigger] ops.take(n));
                !crowds(held, ops[n], btn) && !skips(held, ops[n], btn)
            },
    ensures
        timeline::received_by(ops).filter(is_of(btn)) == timeline::emitted_by(
            Held::empty(),
            ops,
        ).filter(is_of(btn)) + queue(timeline::held_at(Held::empty(), ops), btn),
    decreases ops.len(),
{
    let p = is_of(btn);
    if ops.len() == 0 {
        lemma_filter_small((btn, Edge::Press), (btn, Edge::Press), p);
        lemma_queue(Held::empty(), btn);
        assert(Seq::<Slot>::empty() + Seq::<Slot>::empty() =~= seq![]);
    } else {
        let prev = ops.drop_last();
        let op = ops.last();
        let held = timeline::held_at(Held::empty(), prev);
        assert forall|n: int| 0 <= n < prev.len() implies {
            let held = timeline::held_at(Held::empty(), #[trigger] prev.take(n));
            !crowds(held, prev[n], btn) && !skips(held, prev[n], btn)
        } by {
            assert(prev.take(n) =~= ops.take(n));
        }
        law_order_survives(prev, btn);
        assert(ops.take(ops.len() - 1) =~= prev);
        law_order_kept_unless_overtaken(held, op, btn);
        let received = timeline::received_by(prev);
        let emitted = timeline::emitted_by(Held::empty(), prev);
        Seq::filter_distributes_over_add(received, op.received(), p);
        Seq::filter_distributes_over_add(emitted, op.emitted(held), p);
        reveal(keeps_order);
        lemma_extend(
            emitted.filter(p),
            op.emitted(held).filter(p),
            queue(op.held_after(held), btn),
            queue(held, btn),
            op.received().filter(p),
        );
    }
}

/// The times of the calls never go back.
pub open spec fn times_ascend(ops: Seq<Op>) -> bool {
    forall|i: int, j: int| 0 <= i <= j < ops.len() ==> (#[trigger] ops[i]).time() <= (
    #[trigger] ops[j]).time()
}

/// What is held came by `now`, and of the two events of a button the older one came no
/// later than the newer one.
pub open spec fn fits_clock(held: Held, now: u64) -> bool {
    &&& forall|s: Slot| #[trigger] held.contains_key(s) ==> held[s] <= now
    &&& forall|btn: Btn|
        held.contains_key(#[trigger] held.older(btn)) && held.contains_key(held.newer(btn))
            ==> held[held.older(btn)] <= held[held.newer(btn)]
}

/// A call on a clock that has not gone back keeps what is held in step with the clock.
pub(crate) proof fn lemma_fits_clock(held: Held, op: Op, last: u64)
    requires
        fits_clock(held, last),
        last <= op.time(),
    ensures
        fits_clock(op.held_after(held), op.time()),
{
    let after = op.held_after(held);
    assert forall|s: Slot| #[trigger] after.contains_key(s) implies after[s] <= op.time() by {
        assert(held.contains_key(s) ==> held[s] <= last);
    }
    assert forall|btn: Btn|
        after.contains_key(#[trigger] after.older(btn)) && after.contains_key(
            after.newer(btn),
        ) implies after[after.older(btn)] <= after[after.newer(btn)] by {
        assert(held.contains_key(after.older(btn)) ==> held[after.older(btn)] <= last);
        assert(held.contains_key(held.older(btn)) && held.contains_key(held.newer(btn))
            ==> held[held.older(btn)] <= held[held.newer(btn)]);
    }
}

/// While what is held is in step with the clock, no update skips an older event.
pub(crate) proof fn lemma_clock_rules_out_skips(held: Held, op: Op, last: u64, btn: Btn)
    requires
        fits_clock(held, last),
    ensures
        !skips(held, op, btn),
{
    assert(held.contains_key(held.older(btn)) && held.contains_key(held.newer(btn))
        ==> held[held.older(btn)] <= held[held.newer(btn)]);
}

/// On a clock that does not go back, press/release ordering survives the buffering,
/// however close together the events come, as long as no event passes because its slot
/// is taken, and no kick is made, past an older event of the button.
pub proof fn law_order_survives_on_a_clock(ops: Seq<Op>, btn: Btn)
    requires
        times_ascend(ops),
        forall|n: int|
            0 <= n < ops.len() ==> !crowds(
                timeline::held_at(Held::empty(), #[trigger] ops.take(n)),
                ops[n],
                btn,
            ),
    ensures
        timeline::received_by(ops).filter(is_of(btn)) == timeline::emitted_by(
            Held::empty(),
            ops,
        ).filter(is_of(btn)) + queue(timeline::held_at(Held::empty(), ops), btn),
{
    assert forall|n: int| 0 <= n < ops.len() implies {
        let held = timeline::held_at(Held::empty(), #[trigger] ops.take(n));
        !crowds(held, ops[n], btn) && !skips(held, ops[n], btn)
    } by {
        lemma_run_fits_clock(ops, n);
        let held = timeline::held_at(Held::empty(), ops.take(n));
        lemma_clock_rules_out_skips(
            held,
            ops[n],
            if n == 0 {
                0
            } else {
                ops[n - 1].time()
            },
            btn,
        );
    }
    law_order_survives(ops, btn);
}

proof fn lemma_run_fits_clock(ops: Seq<Op>, n: int)
    requires
        0 <= n <= ops.len(),
        times_ascend(ops),
    ensures
        fits_clock(
            timeline::held_at(Held::empty(), ops.take(n)),
            if n == 0 {
                0
            } else {
                ops[n - 1].time()
            },
        ),
    decreases n,
{
    if n > 0 {
        lemma_run_fits_clock(ops, n - 1);
        assert(ops.take(n).drop_last() =~= ops.take(n - 1));
        assert(ops.take(n).last() == ops[n - 1]);
        if n > 1 {
            assert(ops[n - 2].time() <= ops[n - 1].time());
        }
        lemma_fits_clock(
            timeline::held_at(Held::empty(), ops.take(n - 1)),
            ops[n - 1],
            if n == 1 {
                0
            } else {
                ops[n - 2].time()
            },
        );
    }
}

} // verus!
