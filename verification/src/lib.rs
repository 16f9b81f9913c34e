//! A WebSocket server core: the frame codec, the opening handshake, the
//! per-connection state machine and the registry of connections that a
//! single-threaded reactor drives.

pub mod bytes;
pub mod connection;
pub mod frame;
pub mod handshake;
pub mod server;
pub mod stream;
