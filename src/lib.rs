//! Rendering of markdown articles into numbered, footnote-tidied HTML pages,
//! and the cache that keeps those pages fresh.

pub mod doc;
pub mod footnote;
pub mod helper;
pub mod listing;
pub mod outline;
pub mod page;
pub mod store;
pub mod toc;
