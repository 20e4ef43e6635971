//! Fetches a Last.fm listening history page by page, merges it into a locally
//! saved record set, and computes simple statistics over that set.
//!
//! The logic is verified: the merge keeps the saved set sorted newest-first
//! without repeated records, the fetch planner decides which pages to request
//! and when to retry them, and the error taxonomy maps Last.fm's numeric codes
//! exactly. A few small wrappers around chrono, `dirs`, `Path::exists` and the
//! standard sort are trusted; each names what it relies on.

pub mod commands;
pub mod config;
pub mod errors;
pub mod fetch;
pub mod fetch_session;
pub mod files;
pub mod lastfm;
pub mod numbers;
pub mod models;
pub mod saved_scrobbles;
pub mod stats;
pub mod time;
