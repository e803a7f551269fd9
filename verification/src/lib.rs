//! Content-addressed graph index for a microblogging feed.
//!
//! Posts ("mews") are immutable records in an append-only, content-addressed
//! store. The index layer derives deterministic anchors from semantic string
//! keys, wires post envelopes to their author's anchor with typed link edges,
//! maintains follow/follower relations as two independently written edges,
//! indexes hashtags and cashtags, and merges per-agent post lists into one
//! chronologically ordered feed.

pub mod store;
pub mod anchor;
pub mod mews;
pub mod tags;
pub mod follows;
pub mod feed;
pub mod laws;
