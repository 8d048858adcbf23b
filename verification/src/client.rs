//! The client's side of the conversation: what it keeps, and what it makes of
//! what the user types and the server sends.

pub mod config;
pub mod event;
pub mod handler;
pub mod io;
pub mod message;
pub mod state;
