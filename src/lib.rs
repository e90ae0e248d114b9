// A URL shortener's core: base-62 short codes, validation of target URLs,
// a durable store of mappings, and the cache-aside lookup and creation
// steps, each with its contract.
pub mod base62;
pub mod cache_aside;
pub mod config;
pub mod error;
pub mod models;
pub mod store;
pub mod url_service;
