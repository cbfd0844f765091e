//! The engine of a concurrent web crawler: which URLs are admitted, in what
//! order they are handed to workers, when the crawl is over.
//!
//! The engine does no network or file access itself. A driver fetches pages
//! and persists records; between those steps it asks the engine what to do
//! next and reports what happened.

pub mod crawl;
pub mod extract;
pub mod fetch;
pub mod frontier;
pub mod model;
pub mod pattern;
pub mod pool;
pub mod reach;
pub mod registry;
pub mod url;
pub mod worker;
