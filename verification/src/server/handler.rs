//! What the server does with a message, a connection, an event.

pub mod client;
pub mod server;
