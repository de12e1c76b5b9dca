//! The caching core of a reverse proxy: a bounded response cache keyed by
//! opaque entry IDs, an index from request keys to entry IDs that honours
//! `Vary`, and the decisions of the request pipeline that ties them together.

pub mod text;
pub mod headers;
pub mod entry_id;
pub mod request;
pub mod index_cache;
pub mod backend;
pub mod config;
pub mod cache;
pub mod api;
