//! Resource acquisition and caching for a small page loader.
//!
//! The library fetches a root document and every resource it references
//! (stylesheets, images) across two transport schemes (`file:` and
//! `http:`/`https:`), avoids redundant round-trips through a time-bounded
//! cache, follows HTTP redirects within a bounded hop count, and collects
//! the resources referenced by a document tree into a table keyed by each
//! resource's own resolved URL.
//!
//! All I/O (file reads, HTTP transport) is supplied by the caller as
//! closures; the dispatch, caching, redirect and collection logic here is
//! verified.

pub mod cache;
pub mod css;
pub mod dom;
pub mod fetcher;
pub mod page;
pub mod urls;
