//! Listing, pagination, tag aggregation and multi-term search for a blog-post
//! index whose records live in a key-value store that offers only full scans
//! and single-key lookups.
//!
//! A request is served in three steps. `routing` finds the operation that
//! it asks for, `plan` checks its parameters and says what to read from the
//! store, and `handle_apis` turns what was read into the answer. Reading is
//! left to the caller; `store` runs the same scans and lookups on records
//! held in memory. The steps rest on `pagination`, `sorting`, `tags` and
//! `search`, which hold the rules of the index, and on `dynamodb`, `post`
//! and `responses`, which hold its data. `authorizer` decides who may ask.

pub mod authorizer;
pub mod dynamodb;
pub mod error;
pub mod handle_apis;
pub mod number;
pub mod order;
pub mod pagination;
pub mod plan;
pub mod post;
pub mod responses;
pub mod routing;
pub mod search;
pub mod sorting;
pub mod store;
pub mod tags;
pub mod text;
