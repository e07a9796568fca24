//! Run a shell command, capture a bounded copy of its output for a completion
//! email while echoing everything live, and compose the notification.
//!
//! The heart of the library is [`capture`]: per-stream accumulators that
//! retain the child's output up to a shared byte ceiling, with exact
//! truncation semantics. Around it sit the duration formatter, the email
//! composer, and the configuration model.

pub mod capture;
pub mod text;
pub mod compose;
pub mod config;
pub mod duration;
pub mod host;
