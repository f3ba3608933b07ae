//! What the server does about everything that happens to it.

use crate::connection::{react, reaction, ConnectionAction, ConnectionEvent};
use crate::entity::{Address, Projectile, Session};
use crate::laws::evolves;
use crate::protocol::{
    check_packet, packet_size, PacketSize, ServerInit, TcpClientMessage, TcpServerMessage,
    Timestamp, UdpClientMessage, UdpServerMessage,
};
use crate::slots::{Handle, SlotTable};
use crate::world::{
    accepted_at_random, addresses, after_binding, after_inputs, handles, holder_of, Farewell,
    Welcome, World, MAX_BULLETS, MAX_PLAYERS,
};
use vstd::prelude::*;

verus! {

/// One byte more than the server accepts in a packet.
pub const SERVER_PACKET_LIMIT: usize = 64;

/// The world, and how its time relates to real time.
pub struct Server {
    pub world: World,
    /// Ticks per second.
    pub tick_rate: u32,
    /// When tick zero was.
    pub tick_zero: Timestamp,
}

/// What can happen to a server between two ticks.
#[derive(Clone, Debug, PartialEq, Eq)]
pub enum ServerEvent {
    /// It is time for a snapshot.
    SnapshotDue,
    /// A client has connected.
    Connected,
    /// Clients can connect no more.
    AcceptFailed,
    /// The connection of a player is gone.
    Disconnected(Handle),
    /// A player has sent a message over TCP.
    Message(Handle, TcpServerMessage),
    /// No more messages will come.
    MessagesEnded,
    /// A datagram came, with the message that it was read as, if it was.
    Datagram { num_bytes: usize, from: Address, message: Option<UdpServerMessage> },
    /// Datagrams can be received no more.
    ReceiveFailed,
}

/// What the server has to do next.
#[derive(Debug, PartialEq, Eq)]
pub enum ServerAction {
    /// Nothing.
    Continue,
    /// End.
    Stop,
    /// Send the message to these addresses.
    Broadcast { message: UdpClientMessage, targets: Vec<Address> },
    /// Greet the new player, and tell the others.
    Greet(Welcome),
    /// Close the new connection: there are too many players.
    Reject,
    /// Tell the others that a player has left.
    PartWith(Farewell),
    /// Show from where the player is now known to send.
    Bound(Handle, Address),
    /// Show the message.
    Report(Handle, TcpServerMessage),
}

/// The events that end the server: a failure to accept or to receive, the end of
/// all messages, and a datagram that is empty or too big.
pub open spec fn stops(event: ServerEvent) -> bool {
    match event {
        ServerEvent::AcceptFailed | ServerEvent::MessagesEnded | ServerEvent::ReceiveFailed => true,
        ServerEvent::Datagram { num_bytes, .. } => packet_size(num_bytes, SERVER_PACKET_LIMIT)
            != PacketSize::Complete,
        _ => false,
    }
}

/// Whether the action is to send a picture of the world to all players whose
/// addresses are known.
pub open spec fn is_broadcast(world: World, action: ServerAction) -> bool {
    match action {
        ServerAction::Broadcast { message: UdpClientMessage::WorldUpdate(update), targets } => {
            &&& world.shown_by(update)
            &&& targets@ == addresses(world.players().rows(), world.players().rows().len() as int)
        },
        _ => false,
    }
}

/// Whether the action is to tell all players but one that this one has left.
pub open spec fn is_farewell(
    players: SlotTable<Session>,
    handle: Handle,
    action: ServerAction,
) -> bool {
    match action {
        ServerAction::PartWith(farewell) => {
            &&& farewell.recipients@ == handles(players.remove(handle).rows())
            &&& farewell.left == TcpClientMessage::PlayerLeft(players.at(handle).player.id)
        },
        _ => false,
    }
}

/// The players after a datagram was read as this message. One that could not be
/// read changes nothing.
pub open spec fn after_datagram(
    players: SlotTable<Session>,
    from: Address,
    message: Option<UdpServerMessage>,
) -> SlotTable<Session> {
    match message {
        None => players,
        Some(UdpServerMessage::Init(init)) => after_binding(players, init.random_bytes@, from),
        Some(UdpServerMessage::PlayerInput(inputs)) => after_inputs(players, from, inputs@),
    }
}

/// What the server has to do after a datagram was read as this message: show from
/// where a player sends who has just identified itself.
pub open spec fn datagram_action(
    players: SlotTable<Session>,
    from: Address,
    message: Option<UdpServerMessage>,
) -> ServerAction {
    match message {
        Some(UdpServerMessage::Init(init)) => match holder_of(players, init.random_bytes@) {
            Some(handle) => ServerAction::Bound(handle, from),
            None => ServerAction::Continue,
        },
        _ => ServerAction::Continue,
    }
}

/// What the task that reads a player's connection does about an event.
pub fn on_connection(event: ConnectionEvent<TcpServerMessage>) -> (action: ConnectionAction<
    TcpServerMessage,
>)
    ensures
        action == reaction(event, SERVER_PACKET_LIMIT),
{
    react(event, SERVER_PACKET_LIMIT)
}

impl Server {
    /// A server with an empty world.
    pub fn new(tick_rate: u32, tick_zero: Timestamp) -> (server: Server)
        ensures
            server.world.wf(),
            server.world.players() == SlotTable::<Session>::empty(MAX_PLAYERS as nat),
            server.world.bullets() == SlotTable::<Projectile>::empty(MAX_BULLETS as nat),
            server.world.now() == 0,
            server.tick_rate == tick_rate,
            server.tick_zero == tick_zero,
    {
        Server { world: World::new(), tick_rate, tick_zero }
    }

    /// Reacts to an event.
    pub fn handle(&mut self, event: ServerEvent) -> (action: ServerAction)
        requires
            old(self).world.wf(),
            event matches ServerEvent::Disconnected(handle) ==> old(self).world.players().live(
                handle,
            ) && old(self).world.players().generation < u64::MAX,
        ensures
            final(self).world.wf(),
            final(self).world.bullets() == old(self).world.bullets(),
            final(self).world.now() == old(self).world.now(),
            final(self).tick_rate == old(self).tick_rate,
            final(self).tick_zero == old(self).tick_zero,
            final(self).world.players().slots.len() == old(self).world.players().slots.len(),
            final(self).world == old(self).world || evolves(old(self).world, final(self).world),
            action == ServerAction::Stop <==> stops(event),
            event is SnapshotDue ==> final(self).world == old(self).world && is_broadcast(
                old(self).world,
                action,
            ),
            event is Connected ==> match action {
                ServerAction::Greet(welcome) => accepted_at_random(
                    old(self).world,
                    final(self).world,
                    old(self).tick_rate,
                    old(self).tick_zero,
                    Some(welcome),
                ),
                _ => action == ServerAction::Reject && accepted_at_random(
                    old(self).world,
                    final(self).world,
                    old(self).tick_rate,
                    old(self).tick_zero,
                    None,
                ),
            },
            event matches ServerEvent::Disconnected(handle) ==> {
                let players = old(self).world.players();
                &&& final(self).world.players() == players.remove(handle)
                &&& is_farewell(players, handle, action)
            },
            event matches ServerEvent::Message(handle, message) ==> {
                &&& final(self).world == old(self).world
                &&& action == ServerAction::Report(handle, message)
            },
            event matches ServerEvent::Datagram { num_bytes, from, message } ==> {
                ||| stops(event)
                ||| {
                    let players = old(self).world.players();
                    &&& final(self).world.players() == after_datagram(players, from, message)
                    &&& action == datagram_action(players, from, message)
                }
            },
            stops(event) ==> final(self).world == old(self).world,
    {
        match event {
            ServerEvent::SnapshotDue => {
                let update = self.world.snapshot();
                let targets = self.world.snapshot_targets();
                ServerAction::Broadcast { message: UdpClientMessage::WorldUpdate(update), targets }
            },
            ServerEvent::Connected => match self.world.accept(self.tick_rate, self.tick_zero) {
                Some(welcome) => ServerAction::Greet(welcome),
                None => ServerAction::Reject,
            },
            ServerEvent::Disconnected(handle) => ServerAction::PartWith(
                self.world.disconnect(handle),
            ),
            ServerEvent::Message(handle, message) => ServerAction::Report(handle, message),
            ServerEvent::AcceptFailed
            | ServerEvent::MessagesEnded
            | ServerEvent::ReceiveFailed => ServerAction::Stop,
            ServerEvent::Datagram { num_bytes, from, message } => match check_packet(
                num_bytes,
                SERVER_PACKET_LIMIT,
            ) {
                PacketSize::Closed | PacketSize::TooBig => ServerAction::Stop,
                PacketSize::Complete => {
                    match message {
                        None => ServerAction::Continue,
                        Some(UdpServerMessage::Init(ServerInit { random_bytes })) => {
                            match self.world.bind_address(&random_bytes, from) {
                                Some(handle) => ServerAction::Bound(handle, from),
                                None => ServerAction::Continue,
                            }
                        },
                        Some(UdpServerMessage::PlayerInput(inputs)) => {
                            self.world.apply_inputs(from, &inputs);
                            ServerAction::Continue
                        },
                    }
                },
            },
        }
    }
}

} // verus!
