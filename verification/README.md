# crouchkick

An 8 ms input buffer that makes crouch kicks land, and a detector that recognises
kicks from the wall. The library is verified with Verus; the plugin around it is
ordinary Rust.

Jump and crouch events are delayed for up to the window. If the other press lands
within the window, both go out at once and in order. Otherwise the per-frame flush
lets the held event go. Releases are held too, so that press/release ordering
survives the buffering.

## Layout

- `src/buffer.rs`: the timing buffer. `src/timeline.rs` and `src/ordering.rs` state
  what holds of it over any run of events and updates.
- `src/actions.rs`: events by action, whatever the keys are bound to.
- `src/dispatch.rs`: decides on raw events and keeps those that are held.
  `src/delivery.rs` and `src/raw_ordering.rs` state what holds of it over any run.
- `src/detector.rs`: recognises kicks frame by frame. `src/contacts.rs` states what it
  makes of a whole contact with the wall.
- `src/bind_retry.rs`, `src/entity.rs`, `src/diagnostics.rs`: when to look for the
  bindings again, how to find the player, what to log.
- `app/`: the Northstar plugin. `session.rs` runs the library; `engine.rs` is the
  game's side and exists on Windows only. It also needs the `tf2-input` crate, which
  is not in the registry: https://github.com/FromWau/tf2-input-lib.
