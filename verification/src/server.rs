//! The server's session engine.

pub mod client;
pub mod config;
pub mod event;
pub mod handler;
pub mod history;
pub mod state;
