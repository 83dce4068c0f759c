//! Core of a lunch-menu scraping service: a TTL response cache with a
//! persistent on-disk snapshot format, the supervisor state machine that
//! drives scrape cycles over a command/result bus, and the upsert-by-replace
//! rule used to apply scrape results to a backing store.

pub mod cache;
pub mod codec;
pub mod db;
pub mod fawenah;
pub mod models;
pub mod scrape;
pub mod supervisor;
pub mod util;
pub mod web;

pub use util::reduce_whitespace;
