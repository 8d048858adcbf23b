//! A text chat service: a server that accepts connections, knows each by a
//! nickname and relays what one says to the others, and the protocol that
//! server and clients speak.
//!
//! The library decides; it does no input or output. A program around it reads
//! sockets and keys, hands the bytes in, and carries out what comes back.
//!
//! - [`message`], [`layout`], [`codec`]: the messages, their bytes on the wire,
//!   and the way from one to the other.
//! - [`framing`]: frames in a stream of bytes.
//! - [`user`]: the identity of a connection.
//! - [`server`]: the registry of sessions, admission, the handling of messages
//!   and of the events in the life of a session.
//! - [`client`]: what a client keeps of the conversation, and what it makes of
//!   keys and of the server's messages.
//! - [`transport`], [`logging`], [`text`]: failures of sockets, the choice of a
//!   log, strings.

pub mod client;
pub mod codec;
pub mod framing;
pub mod layout;
pub mod logging;
pub mod message;
pub mod server;
pub mod text;
pub mod transport;
pub mod user;

pub use crate::message::{Error as ErrorMessage, Message, Server as ServerMessage, User as UserMessage};
pub use crate::user::User;
