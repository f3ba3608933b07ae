//! The rules of a small multiplayer arena shooter: the messages that client and
//! server exchange, the world that the server keeps, and what the client makes
//! of the snapshots that it receives.

pub mod arena;
pub mod client;
pub mod connection;
pub mod effects;
pub mod entity;
pub mod input;
pub mod laws;
pub mod protocol;
pub mod scalar;
pub mod search;
pub mod server;
pub mod slots;
pub mod step;
pub mod step_effects;
pub mod timeline;
pub mod world;

pub use crate::protocol::{
    Bullet, ClientInit, Id, Player, PlayerInput, PlayerUpdate, ServerInit, TcpClientMessage,
    TcpServerMessage, Tick, UdpClientMessage, UdpServerMessage, WorldUpdate, NUM_RANDOM_BYTES,
};
