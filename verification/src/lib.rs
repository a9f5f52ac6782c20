//! A small search-redirector and bookmark library.
//!
//! A raw query is split into a leading command token and dispatched to a
//! search-engine redirect URL built with a narrow, fragment-safe percent
//! encoding; bookmarks are key-value records kept unique by key, reached
//! through a pooled connection whose lease discipline is a small state
//! machine.

pub mod encoding;
pub mod lifecycle;
pub mod query;
pub mod redirect;
pub mod store;
