//! Presence monitor for a streaming-chat channel.
//!
//! The library keeps the previously observed set of participants of one
//! channel and, for each freshly fetched participant list, computes which
//! names are new and which have left. A small state machine describes the
//! control loop that drives those polls and decides when to stop.

pub mod control;
pub mod spy;
pub mod viewers;

pub use control::dispatch;
pub use control::events_for;
pub use control::run_queue;
pub use control::Command;
pub use control::Directive;
pub use control::EventKind;
pub use control::LoopState;
pub use control::ReportEvent;
pub use control::SessionEnd;
pub use control::SessionOutcome;
pub use spy::ChannelSpy;
pub use spy::Chatters;
pub use spy::FetchError;
pub use viewers::ViewerSet;
pub use viewers::ViewersDiff;
