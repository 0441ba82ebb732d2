//! A readiness-driven engine that relays subtitle lines from a media
//! player's control socket to websocket clients.
//!
//! The crate holds the decisions of that engine as state machines over plain
//! values: every transition says what it does to the queues, the
//! write-readiness flags and the set of connections, and what the caller has
//! to do on the transport next. Sockets, polling and threads stay with the
//! caller.
//!
//! - [`session`]: the link to the player, from the bytes read to the
//!   subtitles to forward, and the queue of commands to write.
//! - [`event`], [`lines`], [`json`], [`text`]: the line protocol of the
//!   player.
//! - [`connection`]: one websocket connection, from handshake to close.
//! - [`registry`]: all connections of the broadcast server by identifier,
//!   and the fan-out of a subtitle to the open ones.
//! - [`wake`]: the queue behind the channel that wakes an event loop.
//! - [`outbox`], [`transport`]: the queue, the flag and the I/O results that
//!   the state machines share.
//! - [`client`]: the client of the control socket.

pub mod client;
pub mod connection;
pub mod event;
pub mod json;
pub mod lines;
pub mod outbox;
pub mod registry;
pub mod session;
pub mod text;
pub mod transport;
pub mod wake;

pub use client::Client;
