//! Decoder for the match-history wire format of a game-statistics service.
//!
//! The service answers a page query with a length-implicit binary buffer.
//! This crate strips the fixed protocol header, splits the body into match
//! segments, extracts each segment's fields at their documented byte offsets,
//! and assembles validated match records, which an ordered, deduplicating
//! aggregate merges across pages. Query construction and the argument checks
//! of the pagination collaborator are here too; the network transport around
//! them is not.

pub mod context;
pub mod decode;
pub mod encode;
pub mod enums;
pub mod error;
pub mod query;
pub mod record;
pub mod scan;
pub mod text;
pub mod timestamp;
