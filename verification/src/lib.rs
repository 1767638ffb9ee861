//! Input buffering and kick detection for crouch kicks.
//!
//! A crouch kick needs the crouch and the jump press within a few milliseconds of
//! each other, and the engine drops presses that land that close together. The
//! buffer delays each jump or crouch event for a short window. When the other
//! press lands within the window, both go out at once and in order. Otherwise a
//! per-frame update lets the held event go after the window has passed. Releases are
//! held too, so that press/release ordering survives the buffering.
//!
//! Around the buffer stand the dispatcher, which keeps the raw events that are held,
//! and the detector, which recognises kicks from the wall. None of it touches the
//! engine: readings come in as plain values, and decisions go out as plain values.

pub mod actions;
pub mod bind_retry;
pub mod buffer;
pub mod contacts;
pub mod delivery;
pub mod detector;
pub mod diagnostics;
pub mod dispatch;
pub mod entity;
pub mod ordering;
pub mod raw_ordering;
pub mod timeline;

pub use actions::{classify, edge_of, find_required_binds, Actions};
pub use actions::{BUTTON_CODE_SCAN_LIMIT, IE_BUTTON_PRESSED, IE_BUTTON_RELEASED};
pub use bind_retry::{should_warn, BindOutcome, BindRetry};
pub use bind_retry::{BIND_FAST_RETRY_LIMIT, BIND_RETRY_INTERVAL, BIND_SLOW_RETRY_INTERVAL};
pub use buffer::{Btn, Buffer, Decision, Edge, Slot, BUFFER_MS};
pub use detector::{Contact, Detector, Frame, Kick, MAX_KICK_WALL_FRAMES, POST_LEAVE_FRAMES};
pub use diagnostics::{summary_due, Feedback, FeedbackTrial, StateLog};
pub use diagnostics::{FEEDBACK_TRIAL_FRAMES, SUMMARY_INTERVAL};
pub use dispatch::{Act, Dispatcher, RawEvent};
pub use entity::{decode_handle, entity_in_entry, entry_address, EntityRef};
pub use entity::{ENTITY_ENTRY_SIZE, ENTITY_TABLE_LEN, INVALID_HANDLE};
