//! Fixed-input-delay lockstep synchronisation for two networked peers.
//!
//! Two peers run the same simulation and stay in step without ever rolling
//! back: every input takes effect a fixed number of ticks after it was
//! made, long enough for it to reach the other peer first.
//!
//! - [`wire`] frames payloads behind a length prefix.
//! - [`messages`] holds the messages of a session and their payloads.
//! - [`calibration`] derives the input delay from timed round trips.
//! - [`session`] runs the handshake, calibration and the assignment of the
//!   delay as one state machine per peer; [`exchange`] states what follows
//!   for whole runs of it.
//! - [`players`] settles which peer plays which player.
//! - [`timeline`] keeps frames and commands by tick and steps the simulation.
//!
//! The library reads no socket and no clock. Its callers hand it the bytes
//! and the times and do what it answers.

pub mod bytes;
pub mod calibration;
pub mod cli;
pub mod exchange;
pub mod game;
pub mod hasher;
pub mod input;
pub mod messages;
pub mod players;
pub mod session;
pub mod timeline;
pub mod wire;
