//! A feed-polling and notification-dispatch engine.
//!
//! The crate holds the decisions of a feed watcher: how feeds are grouped by
//! host, how a fetched document is compared with what a feed has already
//! seen, how consecutive failures are counted, how update messages are laid
//! out and split, and what a delivery outcome does to the subscriber sets.
//! Fetching, sending and timing are left to the caller, who feeds their
//! results back in.

pub mod delivery;
pub mod feed;
pub mod host;
pub mod message;
pub mod poll;
pub mod schedule;
pub mod store;
pub mod text;
