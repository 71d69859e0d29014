//! An in-process, single-threaded actor runtime.
//!
//! Actors are tagged, stateful handlers. They react to messages that reach
//! them either through their mailbox or through a delayed-delivery queue, and
//! ask the runtime for changes by submitting actions through a [`Context`].
//! One tick of the runtime drains the submitted actions, fires the delayed
//! deliveries that are due and hands each non-empty mailbox's first message
//! to its actor.

pub mod actor;
pub mod counter;
pub mod laws;
pub mod system;
pub mod tagmap;

pub use actor::{Action, Actor, Context, Message, Millis, Tag};
pub use system::{Model, System};
