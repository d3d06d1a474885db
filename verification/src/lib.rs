//! Rewrites path-like substrings of a line of text into terminal hyperlinks.
//!
//! A line is scanned with a compiled pattern built from a catalog of path
//! prefixes. Every match is resolved to an absolute `file://` URL and wrapped
//! in an OSC 8 hyperlink envelope; all other text is copied through.
//!
//! - `catalog`: the prefix catalog and the pattern text built from it.
//! - `hyperlink`: the hyperlink envelope.
//! - `resolve`: from a matched text to the URL it is linked to.
//! - `rewrite`: finding the matches of a line and replacing them.

pub mod catalog;
pub mod hyperlink;
pub mod resolve;
pub mod rewrite;
