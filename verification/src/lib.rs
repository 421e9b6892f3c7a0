//! News-feed entry formatting with a verified description summarizer.
//!
//! The heart of the crate is [`summary::summarize`], which turns a raw feed
//! item description (possibly containing line breaks and HTML-like markup)
//! into a bounded single-line summary. [`entry`] wraps titles, descriptions
//! and category labels into printable news entries.

pub mod entry;
pub mod summary;
