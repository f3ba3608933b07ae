//! The messages between client and server.

use crate::scalar::{Scalar, Vector2};
use vstd::prelude::*;

verus! {

/// How many random bytes identify a client between its two connections.
pub const NUM_RANDOM_BYTES: usize = 16;

/// Identifies a player.
pub type Id = u8;

/// A point in game time. It wraps around.
pub type Tick = u16;

/// A player as every client sees it.
#[derive(Clone, Copy, Debug, PartialEq, Eq, Structural)]
pub struct Player {
    pub id: Id,
    pub radius: Scalar,
    pub position: Vector2,
    pub velocity: Vector2,
}

/// A bullet as every client sees it.
#[derive(Clone, Copy, Debug, PartialEq, Eq, Structural)]
pub struct Bullet {
    pub id: u16,
    pub player_id: Id,
    pub position: Vector2,
    pub angle: Scalar,
    pub radius: Scalar,
}

/// One player at one tick.
#[derive(Clone, Copy, Debug, PartialEq, Eq, Structural)]
pub struct PlayerUpdate {
    pub tick: Tick,
    pub player: Player,
}

/// Everything that there is to see at one tick.
#[derive(Clone, Debug, PartialEq, Eq)]
pub struct WorldUpdate {
    pub tick: Tick,
    pub players: Vec<Player>,
    pub bullets: Vec<Bullet>,
}

/// A point in real time, counted from the Unix epoch.
#[derive(Clone, Copy, Debug, PartialEq, Eq, Structural)]
pub struct Timestamp {
    pub secs: u64,
    pub nanos: u32,
}

/// What the server tells a client that has just connected.
#[derive(Clone, Debug, PartialEq, Eq)]
pub struct ClientInit {
    pub id: Id,
    pub random_bytes: [u8; NUM_RANDOM_BYTES],
    pub update: WorldUpdate,
    pub tick_rate: u8,
    pub tick_zero: Timestamp,
}

/// What a client sends over UDP to say which connection it belongs to.
#[derive(Clone, Copy, Debug, PartialEq, Eq)]
pub struct ServerInit {
    pub random_bytes: [u8; NUM_RANDOM_BYTES],
}

/// What a player holds down at one tick, and where the player aims.
#[derive(Clone, Copy, Debug, PartialEq, Eq, Structural)]
pub struct PlayerInput {
    pub tick: Tick,
    pub up: bool,
    pub left: bool,
    pub down: bool,
    pub right: bool,
    pub mouse_left: bool,
    pub mouse_right: bool,
    pub angle: Scalar,
}

/// From the server to a client, over TCP.
#[derive(Clone, Debug, PartialEq, Eq)]
pub enum TcpClientMessage {
    Init(ClientInit),
    PlayerJoined(Id),
    PlayerLeft(Id),
}

/// From a client to the server, over TCP.
#[derive(Clone, Copy, Debug, PartialEq, Eq, Structural)]
pub enum TcpServerMessage {
    Test(u8),
}

/// From the server to a client, over UDP.
#[derive(Clone, Debug, PartialEq, Eq)]
pub enum UdpClientMessage {
    WorldUpdate(WorldUpdate),
}

/// From a client to the server, over UDP.
#[derive(Clone, Debug, PartialEq, Eq)]
pub enum UdpServerMessage {
    Init(ServerInit),
    PlayerInput(Vec<PlayerInput>),
}

/// What the size of a received packet says.
#[derive(Clone, Copy, Debug, PartialEq, Eq, Structural)]
pub enum PacketSize {
    /// Nothing came: the other side is gone.
    Closed,
    /// The buffer is full, so that the packet may have been cut off.
    TooBig,
    /// The packet is complete.
    Complete,
}

/// What it says that `num_bytes` were received into a buffer of `limit` bytes.
pub open spec fn packet_size(num_bytes: usize, limit: usize) -> PacketSize {
    if num_bytes == 0 {
        PacketSize::Closed
    } else if num_bytes == limit {
        PacketSize::TooBig
    } else {
        PacketSize::Complete
    }
}

/// Judges a packet by its size. A buffer is one byte larger than the largest
/// packet, so a full one holds a packet that is too big.
pub fn check_packet(num_bytes: usize, limit: usize) -> (size: PacketSize)
    ensures
        size == packet_size(num_bytes, limit),
{
    if num_bytes == 0 {
        PacketSize::Closed
    } else if num_bytes == limit {
        PacketSize::TooBig
    } else {
        PacketSize::Complete
    }
}

} // verus!
