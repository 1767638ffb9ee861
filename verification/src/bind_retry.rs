//! When to look for the jump and crouch bindings again.

use crate::actions;
use crate::actions::{Actions, BUTTON_CODE_SCAN_LIMIT};
use vstd::prelude::*;

verus! {

/// How many ticks lie between two early attempts.
pub const BIND_RETRY_INTERVAL: u64 = 64;

/// How many ticks lie between two later attempts, rare enough not to be felt.
pub const BIND_SLOW_RETRY_INTERVAL: u64 = 3600;

/// How many attempts are made in quick succession.
pub const BIND_FAST_RETRY_LIMIT: u32 = 20;

/// What an attempt came to.
#[derive(Clone, Copy, PartialEq, Eq, Debug, Structural)]
pub enum BindOutcome {
    /// Both bindings are there: the button codes of jump and crouch.
    Resolved(i32, i32),
    /// The table could be read, but a binding is missing. Whether to warn about it.
    Missing(bool),
    /// The table could not be read yet. Whether to warn about it.
    NotReady(bool),
}

/// Keeps count of the attempts to find the bindings.
#[derive(Clone, Copy, PartialEq, Eq, Debug, Structural)]
pub struct BindRetry {
    /// The bindings have been found.
    pub ready: bool,
    /// How many attempts have been made, modulo the range of `u32`.
    pub attempts: u32,
    /// The first tick at which the next attempt may be made.
    pub next_tick: u64,
}

/// How long to wait after an attempt.
pub open spec fn interval_after(attempt: u32) -> u64 {
    if attempt < BIND_FAST_RETRY_LIMIT {
        BIND_RETRY_INTERVAL
    } else {
        BIND_SLOW_RETRY_INTERVAL
    }
}

/// Failures are reported for the first few attempts, then for every tenth.
pub open spec fn spec_should_warn(attempt: u32) -> bool {
    attempt <= 5 || attempt % 10 == 0
}

/// Failures are reported for the first few attempts, then for every tenth.
pub fn should_warn(attempt: u32) -> (r: bool)
    ensures
        r == spec_should_warn(attempt),
        r <==> attempt <= 5 || attempt % 10 == 0,
{
    attempt <= 5 || attempt % 10 == 0
}

/// The table holds both a binding of jump and one of crouch.
pub open spec fn both_bound(table: Seq<Actions>) -> bool {
    &&& exists|c: int| 0 <= c < table.len() && (#[trigger] table[c]).jump
    &&& exists|c: int| 0 <= c < table.len() && (#[trigger] table[c]).spec_crouches()
}

impl BindRetry {
    /// No attempt yet, and the first may be made at once.
    pub fn new() -> (r: Self)
        ensures
            r == (BindRetry { ready: false, attempts: 0, next_tick: 0 }),
    {
        BindRetry { ready: false, attempts: 0, next_tick: 0 }
    }

    /// An attempt is due at `tick`: the bindings are still wanted, there is a player,
    /// and the last attempt is long enough ago.
    pub open spec fn is_due(self, tick: u64, player_available: bool) -> bool {
        !self.ready && player_available && tick >= self.next_tick
    }

    /// The count after a poll at `tick`.
    pub open spec fn polled(self, tick: u64, player_available: bool) -> BindRetry {
        if self.is_due(tick, player_available) {
            let attempt = self.attempts.wrapping_add(1);
            BindRetry {
                ready: false,
                attempts: attempt,
                next_tick: tick.saturating_add(interval_after(attempt)),
            }
        } else {
            self
        }
    }

    /// Whether to make an attempt at `tick`, and its number.
    pub fn poll(&mut self, tick: u64, player_available: bool) -> (attempt: Option<u32>)
        ensures
            *final(self) == old(self).polled(tick, player_available),
            attempt == (if old(self).is_due(tick, player_available) {
                Some(final(self).attempts)
            } else {
                None
            }),
            attempt is Some <==> !old(self).ready && player_available && tick
                >= old(self).next_tick,
            attempt is None ==> *final(self) == *old(self),
            attempt matches Some(n) ==> {
                &&& !final(self).ready
                &&& final(self).attempts == n
                &&& n == (if old(self).attempts == u32::MAX {
                    0
                } else {
                    old(self).attempts + 1
                })
                &&& final(self).next_tick >= tick
                &&& n < 20 && tick + 64 <= u64::MAX ==> final(self).next_tick == tick + 64
                &&& n >= 20 && tick + 3600 <= u64::MAX ==> final(self).next_tick == tick + 3600
            },
    {
        if !self.ready && player_available && tick >= self.next_tick {
            let attempt: u32 = self.attempts.wrapping_add(1);
            let interval: u64 = if attempt < BIND_FAST_RETRY_LIMIT {
                BIND_RETRY_INTERVAL
            } else {
                BIND_SLOW_RETRY_INTERVAL
            };
            self.attempts = attempt;
            self.next_tick = tick.saturating_add(interval);
            Some(attempt)
        } else {
            None
        }
    }

    /// Concludes an attempt with the table that it read, if any. The bindings are ready
    /// once both are in the table.
    pub fn conclude(
        &mut self,
        attempt: u32,
        table: Option<&[Actions; BUTTON_CODE_SCAN_LIMIT]>,
    ) -> (outcome: BindOutcome)
        ensures
            final(self).attempts == old(self).attempts,
            final(self).next_tick == old(self).next_tick,
            final(self).ready == (old(self).ready || outcome is Resolved),
            match table {
                Some(t) => if both_bound(t@) {
                    outcome matches BindOutcome::Resolved(jump, crouch) && actions::is_first_jump(
                        t@,
                        jump as int,
                    ) && actions::is_first_crouch(t@, crouch as int)
                } else {
                    outcome == BindOutcome::Missing(spec_should_warn(attempt))
                },
                None => outcome == BindOutcome::NotReady(spec_should_warn(attempt)),
            },
            outcome is NotReady <==> table is None,
            outcome matches BindOutcome::Missing(warn) ==> (warn <==> attempt <= 5 || attempt % 10
                == 0),
            outcome matches BindOutcome::NotReady(warn) ==> (warn <==> attempt <= 5 || attempt
                % 10 == 0),
            outcome matches BindOutcome::Resolved(jump, crouch) ==> {
                &&& 0 <= jump < 256
                &&& 0 <= crouch < 256
                &&& table->0@[jump as int].jump
                &&& table->0@[crouch as int].crouch || table->0@[crouch as int].toggle_crouch
            },
            outcome is Missing ==> {
                ||| forall|c: int| 0 <= c < 256 ==> !(#[trigger] table->0@[c]).jump
                ||| forall|c: int|
                    0 <= c < 256 ==> !(#[trigger] table->0@[c]).crouch
                        && !table->0@[c].toggle_crouch
            },
    {
        match table {
            Some(t) => match crate::actions::find_required_binds(t) {
                Some((jump, crouch)) => {
                    self.ready = true;
                    BindOutcome::Resolved(jump, crouch)
                },
                None => BindOutcome::Missing(should_warn(attempt)),
            },
            None => BindOutcome::NotReady(should_warn(attempt)),
        }
    }
}

/// Between two attempts lies at least the interval that belongs to the first of them,
/// short of the end of the tick range, and once the bindings are ready there are no
/// attempts any more.
pub proof fn law_attempts_are_spaced(
    retry: BindRetry,
    tick: u64,
    later: u64,
    player_available: bool,
)
    requires
        retry.is_due(tick, true),
    ensures
        ({
            let after = retry.polled(tick, true);
            &&& later < tick + interval_after(after.attempts) && later < u64::MAX
                ==> !after.is_due(later, player_available)
            &&& later >= tick + interval_after(after.attempts) ==> after.is_due(later, true)
            &&& !(BindRetry { ready: true, ..after }).is_due(later, player_available)
        }),
{
}

/// Without a player no attempt is made, whatever the tick and the count, and the count
/// stays as it is.
pub proof fn law_no_attempt_without_player(retry: BindRetry, tick: u64)
    ensures
        !retry.is_due(tick, false),
        retry.polled(tick, false) == retry,
{
}

/// With a player an attempt is made exactly where the bindings are still wanted and the
/// next tick has come. It is counted, and the next one comes 64 ticks later up to the
/// nineteenth attempt, and 3600 ticks later from then on. Where no attempt is made, the
/// count stays as it is.
pub proof fn law_attempts_go_by_tick_and_count(retry: BindRetry, tick: u64)
    ensures
        retry.is_due(tick, true) <==> !retry.ready && retry.next_tick <= tick,
        retry.ready || tick < retry.next_tick ==> retry.polled(tick, true) == retry,
        retry.is_due(tick, true) ==> {
            let after = retry.polled(tick, true);
            let wait = if retry.attempts < 19 || retry.attempts == u32::MAX {
                64int
            } else {
                3600int
            };
            &&& !after.ready
            &&& after.attempts == (if retry.attempts == u32::MAX {
                0
            } else {
                retry.attempts + 1
            })
            &&& after.next_tick == (if tick + wait <= u64::MAX {
                tick + wait
            } else {
                u64::MAX as int
            })
        },
{
}

/// Each of the first five failures is reported, and after them one of any ten in a row.
pub proof fn law_warnings_thin_out(attempt: u32)
    ensures
        attempt <= 5 ==> spec_should_warn(attempt),
        attempt > 5 ==> (spec_should_warn(attempt) <==> exists|k: int|
            attempt == #[trigger] (k * 10)),
{
    if attempt % 10 == 0 {
        assert(attempt == (attempt as int / 10) * 10);
    }
}

/// The bindings count as found exactly where some button jumps and some button crouches,
/// be it by crouch or by toggle crouch.
pub proof fn law_both_bindings_are_wanted(table: Seq<Actions>)
    ensures
        both_bound(table) <==> {
            &&& exists|c: int| 0 <= c < table.len() && (#[trigger] table[c]).jump
            &&& exists|c: int|
                0 <= c < table.len() && ((#[trigger] table[c]).crouch || table[c].toggle_crouch)
        },
{
    if exists|c: int|
        0 <= c < table.len() && ((#[trigger] table[c]).crouch || table[c].toggle_crouch) {
        let c = choose|c: int|
            0 <= c < table.len() && ((#[trigger] table[c]).crouch || table[c].toggle_crouch);
        assert(table[c].spec_crouches());
    }
}

} // verus!
