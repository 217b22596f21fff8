//! Key scheme and cursor codec for a single-table document store that holds
//! submissions, comments and replies side by side.

pub mod comment;
pub mod cursor;
pub mod entity;
pub mod keys;
pub mod query;
pub mod reply;
pub mod result;
pub mod submission;
pub mod table;
