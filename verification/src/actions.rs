//! Jump and crouch by action rather than by key, so that any binding works.

use crate::buffer::{Btn, Edge, Slot};
use vstd::prelude::*;

verus! {

/// The engine's event type for a button that goes down.
pub const IE_BUTTON_PRESSED: i32 = 0;

/// The engine's event type for a button that goes up.
pub const IE_BUTTON_RELEASED: i32 = 1;

/// How many button codes a search for bindings goes through.
pub const BUTTON_CODE_SCAN_LIMIT: usize = 256;

/// A set of the actions that matter here: those that a button code is bound to, or
/// those whose keys are down.
#[derive(Clone, Copy, PartialEq, Eq, Debug, Structural)]
pub struct Actions {
    pub jump: bool,
    pub crouch: bool,
    pub toggle_crouch: bool,
}

impl Actions {
    /// Either kind of crouch counts as crouch.
    pub open spec fn spec_crouches(self) -> bool {
        self.crouch || self.toggle_crouch
    }

    /// Either kind of crouch counts as crouch.
    pub fn crouches(self) -> (r: bool)
        ensures
            r == self.spec_crouches(),
            r <==> self.crouch || self.toggle_crouch,
    {
        self.crouch || self.toggle_crouch
    }
}

/// The edge that an event type stands for, if it is that of a button.
pub open spec fn spec_edge_of(n_type: i32) -> Option<Edge> {
    if n_type == IE_BUTTON_PRESSED {
        Some(Edge::Press)
    } else if n_type == IE_BUTTON_RELEASED {
        Some(Edge::Release)
    } else {
        None
    }
}

/// The edge that an event type stands for, if it is that of a button.
pub fn edge_of(n_type: i32) -> (r: Option<Edge>)
    ensures
        r == spec_edge_of(n_type),
        r == Some(Edge::Press) <==> n_type == 0,
        r == Some(Edge::Release) <==> n_type == 1,
{
    match n_type {
        IE_BUTTON_PRESSED => Some(Edge::Press),
        IE_BUTTON_RELEASED => Some(Edge::Release),
        _ => None,
    }
}

/// The slot of an event of type `n_type` on a key that is bound to `actions`. A key
/// bound to both jump and crouch counts as jump.
pub open spec fn spec_classify(actions: Actions, n_type: i32) -> Option<Slot> {
    match spec_edge_of(n_type) {
        Some(edge) => if actions.jump {
            Some((Btn::Jump, edge))
        } else if actions.spec_crouches() {
            Some((Btn::Crouch, edge))
        } else {
            None
        },
        None => None,
    }
}

/// The button and edge of an event of type `n_type` on a key that is bound to
/// `actions`, if it is a jump or crouch press or release.
pub fn classify(actions: Actions, n_type: i32) -> (r: Option<(Btn, Edge)>)
    ensures
        r == spec_classify(actions, n_type),
        r matches Some((_, edge)) ==> (edge == Edge::Press <==> n_type == 0) && (edge
            == Edge::Release <==> n_type == 1),
        r matches Some((btn, _)) ==> (btn == Btn::Jump <==> actions.jump),
        r is Some <==> (n_type == 0 || n_type == 1) && (actions.jump || actions.crouch
            || actions.toggle_crouch),
{
    let edge = match edge_of(n_type) {
        Some(edge) => edge,
        None => return None,
    };
    if actions.jump {
        Some((Btn::Jump, edge))
    } else if actions.crouches() {
        Some((Btn::Crouch, edge))
    } else {
        None
    }
}

/// The event types 0 and 1 are a press and a release, and there are no others.
pub proof fn law_edges_by_event_type(n_type: i32)
    ensures
        spec_edge_of(n_type) == Some(Edge::Press) <==> n_type == 0,
        spec_edge_of(n_type) == Some(Edge::Release) <==> n_type == 1,
        spec_edge_of(n_type) is None <==> n_type != 0 && n_type != 1,
        IE_BUTTON_PRESSED == 0,
        IE_BUTTON_RELEASED == 1,
{
}

/// A press or release, and either alike, is told by what its key is bound to: it belongs
/// to jump if jump is among the actions, to crouch if only a kind of crouch is, and to
/// neither if none of the three is. Nothing else counts as a jump or crouch event.
pub proof fn law_any_binding_counts(actions: Actions, n_type: i32)
    ensures
        spec_classify(actions, n_type) is Some <==> (n_type == 0 || n_type == 1) && (actions.jump
            || actions.crouch || actions.toggle_crouch),
        n_type == 0 && actions.jump ==> spec_classify(actions, n_type) == Some(
            (Btn::Jump, Edge::Press),
        ),
        n_type == 1 && actions.jump ==> spec_classify(actions, n_type) == Some(
            (Btn::Jump, Edge::Release),
        ),
        n_type == 0 && !actions.jump && (actions.crouch || actions.toggle_crouch)
            ==> spec_classify(actions, n_type) == Some((Btn::Crouch, Edge::Press)),
        n_type == 1 && !actions.jump && (actions.crouch || actions.toggle_crouch)
            ==> spec_classify(actions, n_type) == Some((Btn::Crouch, Edge::Release)),
{
}

/// A key is told by its action alone: hold crouch and toggle crouch make no difference,
/// and a press and a release of the same key belong to the same button.
pub proof fn law_both_edges_and_both_crouches_alike(actions: Actions, jump: bool)
    ensures
        spec_classify(actions, 0) is Some <==> spec_classify(actions, 1) is Some,
        spec_classify(actions, 0) is Some ==> (spec_classify(actions, 0)->0).0 == (spec_classify(
            actions,
            1,
        )->0).0,
        forall|n_type: i32| #[trigger]
            spec_classify(Actions { jump, crouch: true, toggle_crouch: false }, n_type)
                == spec_classify(Actions { jump, crouch: false, toggle_crouch: true }, n_type),
{
}

/// `code` is the lowest button code that is bound to jump.
pub open spec fn is_first_jump(table: Seq<Actions>, code: int) -> bool {
    &&& 0 <= code < table.len()
    &&& table[code].jump
    &&& forall|c: int| 0 <= c < code ==> !(#[trigger] table[c]).jump
}

/// `code` is the lowest button code that is bound to either kind of crouch.
pub open spec fn is_first_crouch(table: Seq<Actions>, code: int) -> bool {
    &&& 0 <= code < table.len()
    &&& table[code].spec_crouches()
    &&& forall|c: int| 0 <= c < code ==> !(#[trigger] table[c]).spec_crouches()
}

/// Looks up the lowest button code bound to jump and the lowest bound to crouch, in a
/// table of what each code is bound to. Both have to be there.
pub fn find_required_binds(table: &[Actions; BUTTON_CODE_SCAN_LIMIT]) -> (r: Option<(i32, i32)>)
    ensures
        r matches Some((jump, crouch)) ==> is_first_jump(table@, jump as int) && is_first_crouch(
            table@,
            crouch as int,
        ),
        r is Some <==> (exists|c: int| 0 <= c < table@.len() && (#[trigger] table@[c]).jump) && (
        exists|c: int| 0 <= c < table@.len() && (#[trigger] table@[c]).spec_crouches()),
        r matches Some((jump, crouch)) ==> {
            &&& 0 <= jump < 256 && 0 <= crouch < 256
            &&& table@[jump as int].jump
            &&& table@[crouch as int].crouch || table@[crouch as int].toggle_crouch
            &&& forall|c: int| 0 <= c < jump ==> !(#[trigger] table@[c]).jump
            &&& forall|c: int|
                0 <= c < crouch ==> !(#[trigger] table@[c]).crouch && !table@[c].toggle_crouch
        },
        r is None ==> (forall|c: int| 0 <= c < 256 ==> !(#[trigger] table@[c]).jump) || (forall|
            c: int,
        |
            0 <= c < 256 ==> !(#[trigger] table@[c]).crouch && !table@[c].toggle_crouch),
{
    let mut jump_key: Option<i32> = None;
    let mut crouch_key: Option<i32> = None;
    let mut code: usize = 0;
    while code < BUTTON_CODE_SCAN_LIMIT && !(jump_key.is_some() && crouch_key.is_some())
        invariant
            code <= BUTTON_CODE_SCAN_LIMIT,
            match jump_key {
                Some(jump) => is_first_jump(table@, jump as int),
                None => forall|c: int| 0 <= c < code ==> !(#[trigger] table@[c]).jump,
            },
            match crouch_key {
                Some(crouch) => is_first_crouch(table@, crouch as int),
                None => forall|c: int| 0 <= c < code ==> !(#[trigger] table@[c]).spec_crouches(),
            },
        decreases BUTTON_CODE_SCAN_LIMIT - code,
    {
        if jump_key.is_none() && table[code].jump {
            jump_key = Some(code as i32);
        }
        if crouch_key.is_none() && table[code].crouches() {
            crouch_key = Some(code as i32);
        }
        code = code + 1;
    }
    match (jump_key, crouch_key) {
        (Some(jump), Some(crouch)) => Some((jump, crouch)),
        _ => None,
    }
}

} // verus!
