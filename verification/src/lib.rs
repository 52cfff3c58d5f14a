//! Verified core of a batch job that announces feed articles on Mastodon.
//!
//! The library ingests a feed of articles, selects the items whose ids are
//! not yet in a persisted ledger of announced items, synthesizes the
//! announcement text for each, and gates persistence of the updated ledger
//! behind all-or-nothing batch semantics.  All file and network I/O lives
//! outside the library; callers hand in plain values (feed items, the
//! category map, the ledger file's text) and take plain values back.
#![verifier::loop_isolation(false)]

pub mod categories;
pub mod codec;
pub mod feed;
pub mod formatter;
pub mod ledger;
pub mod pipeline;
