//! The window settings kept as text under the `config` key of a page's
//! synchronous key-value storage.
pub mod config;
