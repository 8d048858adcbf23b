//! What comes in: keys from the user, bytes from the server.

pub mod server;
pub mod user;
