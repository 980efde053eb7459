//! Core of a topic-subscription notifier: polls content topics, filters
//! freshly published items through a TTL-bound seen-marker store, fans the
//! survivors out to each topic's subscribers, and hands the resulting
//! notifications to an at-least-once delivery queue.
//!
//! The store itself (a key-value server) and all network traffic live
//! outside this crate; the types here model the store's contents exactly,
//! so every decision the pipeline makes is verified.

pub mod commands;
pub mod database;
pub mod message;
pub mod queue;
pub mod reddit;
pub mod text;
pub mod worker;

use vstd::prelude::*;

verus! {

/// Width of the recency window, in seconds: an item older than this is
/// never notified, even when no seen-marker exists for it.
pub const RECENT_OFFSET: i64 = 6 * 60 * 60;

/// Seconds a seen-marker lives from the moment it is written: twice the
/// recency window, so a marker always outlives the window it protects.
pub const SEEN_TTL: i64 = 2 * RECENT_OFFSET;

} // verus!
