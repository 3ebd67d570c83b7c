//! Lifecycle and ordering of cached package documentation.
pub mod order;
pub mod key;
pub mod record;
pub mod cache;
pub mod line;
pub mod docs;
pub mod database;
pub mod codec;
pub mod navi;
