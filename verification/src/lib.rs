//! A small directory service: it registers endpoints ("pulsars"), each
//! identified by a URL and a list of user emails, assigns each a unique
//! time-ordered identifier, and answers point lookups, email searches and
//! deletions over a store that is safe under concurrent access.

pub mod data;
pub mod laws;
pub mod service;
pub mod store;
