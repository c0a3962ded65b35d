//! Persistence and time-window rules of a browser extension that limits
//! access to a video site to a daily window on chosen weekdays.
pub mod text;
pub mod config;
pub mod store;
pub mod window;
pub mod storage;
