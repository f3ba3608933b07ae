//! What the server keeps of each player and of each bullet.

use crate::protocol::{Bullet, Player, NUM_RANDOM_BYTES};
use crate::scalar::{Scalar, Vector2};
use vstd::prelude::*;

verus! {

/// Where a datagram came from.
#[derive(Clone, Copy, Debug, PartialEq, Eq, Structural)]
pub enum Address {
    V4 { ipv4: u32, port: u16 },
    V6 { ipv6: u128, port: u16, flowinfo: u32, scope_id: u32 },
}

/// The direction in which a player pushes, before it is scaled to unit length.
/// The y axis points down.
#[derive(Clone, Copy, Debug, PartialEq, Eq, Structural)]
pub struct Direction {
    pub x: i32,
    pub y: i32,
}

/// A connected player.
#[derive(Clone, Copy, Debug, PartialEq, Eq)]
pub struct Session {
    pub player: Player,
    /// What the player's first datagram has to hold.
    pub random_bytes: [u8; NUM_RANDOM_BYTES],
    /// Where the player's datagrams come from, once that is known.
    pub udp_addr: Option<Address>,
    pub input: Direction,
    pub angle: Scalar,
    pub firing: bool,
    /// How much of the next shot is loaded.
    pub fire_counter: Scalar,
}

/// A bullet in flight.
#[derive(Clone, Copy, Debug, PartialEq, Eq, Structural)]
pub struct Projectile {
    pub bullet: Bullet,
    pub velocity: Vector2,
    pub lifetime: Scalar,
}

} // verus!
