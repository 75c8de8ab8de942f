//! Storage and query engine for a threaded message board.
//!
//! Visitors create top-level posts and replies, optionally with an attached
//! media file, and browse root posts ordered by most recent activity.  This
//! crate holds the verified core: the post record codec, the validation and
//! write path, the scan-based thread index, and activity ordering with
//! pagination.  The HTTP surface around it is ordinary plumbing and lives
//! outside this library.

pub mod attach;
pub mod board;
pub mod bytes;
pub mod codec;
pub mod color;
pub mod listing;
pub mod post;
pub mod store;
pub mod text;
