//! Aggregates open pull requests across a configured set of repositories,
//! applies relevance filters relative to the authenticated identity, and
//! maintains the shared, scrollable table state that a terminal front end
//! renders each frame.
//!
//! The crate holds the policy logic only: filter predicates, the merge/sort
//! discipline of the pull-request list, the loading-state transitions, and
//! the selection cursor. Network calls, terminal drawing and key handling
//! live outside and talk to this crate through plain values.

pub mod config;
pub mod pull_requests;
pub mod text;
