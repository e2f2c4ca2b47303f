//! Per-language "message of the day" announcements: the record, its one-string
//! wire form, and the mapping of a language's collection onto set operations of
//! a key-value store.

pub mod cli;
pub mod collection;
pub mod motd;
pub mod store;
pub mod transport;

pub use motd::Motd;
