//! A stateful feed republisher: it decides which upstream entries are freely
//! readable, maintains a derived output feed of the entries that have become
//! free, and remembers previously seen entries across runs.

pub mod article;
pub mod dates;
pub mod extract;
pub mod feed;
pub mod reconcile;
