//! A small lookup/filter library over a fixed catalog of book-listing
//! records. A query holds one partial string per record field; a record
//! matches when every field passes a space-delimited multi-token
//! substring test.

pub mod catalog;
pub mod engine;
pub mod matching;
