//! Relay core of a chat backend: the connection registry, the handshake
//! authenticator, the message router and the wire codec that tie an
//! authenticated websocket session to point-to-point message delivery.

pub mod bytes;
pub mod registry;
pub mod token;
pub mod handshake;
pub mod codec;
pub mod router;
pub mod laws;
pub mod models;
pub mod db;
pub mod accounts;
