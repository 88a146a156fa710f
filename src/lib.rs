//! A terminal browser's core: a prefix index over command names, a content
//! cache, an in-page search engine and the session state machine.

pub mod cache;
pub mod highlight;
pub mod man_db;
pub mod search;
pub mod session;
pub mod text;
pub mod trie;
