//! What a client keeps, and what it draws.

use crate::connection::{react, reaction, ConnectionAction, ConnectionEvent};
use crate::input::{after_event, Flow, InputEvent};
use crate::protocol::{
    Bullet, ClientInit, Id, Player, PlayerInput, ServerInit, TcpClientMessage, Tick,
    UdpClientMessage, UdpServerMessage,
};
use crate::scalar::{Scalar, Vector2, ZERO};
use crate::timeline::{bullet_in, latest_two, player_in, Progress, Timeline};
use vstd::prelude::*;

verus! {

/// One byte more than a client accepts in a packet.
pub const CLIENT_PACKET_LIMIT: usize = 4096;

/// What the task that reads the client's TCP connection does about an event.
pub fn on_connection(event: ConnectionEvent<TcpClientMessage>) -> (action: ConnectionAction<
    TcpClientMessage,
>)
    ensures
        action == reaction(event, CLIENT_PACKET_LIMIT),
{
    react(event, CLIENT_PACKET_LIMIT)
}

/// What the task that reads the client's datagrams does about an event.
pub fn on_datagram(event: ConnectionEvent<UdpClientMessage>) -> (action: ConnectionAction<
    UdpClientMessage,
>)
    ensures
        action == reaction(event, CLIENT_PACKET_LIMIT),
{
    react(event, CLIENT_PACKET_LIMIT)
}

/// What a client keeps.
#[derive(Debug, PartialEq, Eq)]
pub struct Client {
    pub timeline: Timeline,
    /// Which player is the client's own.
    pub player_id: Id,
    pub input: PlayerInput,
    pub tick: Tick,
}

/// A colour on the screen.
#[derive(Clone, Copy, Debug, PartialEq, Eq, Structural)]
pub struct Color {
    pub r: u8,
    pub g: u8,
    pub b: u8,
}

/// A filled circle.
#[derive(Clone, Copy, Debug, PartialEq, Eq, Structural)]
pub struct Disc {
    pub position: Vector2,
    pub radius: Scalar,
}

/// Something to be drawn, on the way from one place to the other.
#[derive(Clone, Copy, Debug, PartialEq, Eq, Structural)]
pub struct Sprite {
    pub color: Color,
    pub previous: Disc,
    pub current: Disc,
}

/// Everything that is to be drawn.
#[derive(Debug, PartialEq, Eq)]
pub struct Frame {
    pub progress: Progress,
    pub sprites: Vec<Sprite>,
}

/// What is needed to tell where the client's own player is.
#[derive(Clone, Copy, Debug, PartialEq, Eq, Structural)]
pub struct Aim {
    pub progress: Progress,
    pub previous: Vector2,
    pub current: Vector2,
}

/// One's own things are white, those of others are red.
pub open spec fn color_of(owner: Id, me: Id) -> Color {
    if owner == me {
        Color { r: 255, g: 255, b: 255 }
    } else {
        Color { r: 255, g: 0, b: 0 }
    }
}

/// A player who was not there before has not moved.
pub open spec fn player_before(player: Player, before: Seq<Player>) -> Player {
    match player_in(before, player.id) {
        None => player,
        Some(earlier) => earlier,
    }
}

/// A bullet that was not there before has not moved.
pub open spec fn bullet_before(bullet: Bullet, before: Seq<Bullet>) -> Bullet {
    match bullet_in(before, bullet.id) {
        None => bullet,
        Some(earlier) => earlier,
    }
}

/// How a player is drawn.
pub open spec fn player_sprite(player: Player, before: Seq<Player>, me: Id) -> Sprite {
    let earlier = player_before(player, before);
    Sprite {
        color: color_of(player.id, me),
        previous: Disc { position: earlier.position, radius: earlier.radius },
        current: Disc { position: player.position, radius: player.radius },
    }
}

/// How a bullet is drawn.
pub open spec fn bullet_sprite(bullet: Bullet, before: Seq<Bullet>, me: Id) -> Sprite {
    let earlier = bullet_before(bullet, before);
    Sprite {
        color: color_of(bullet.player_id, me),
        previous: Disc { position: earlier.position, radius: earlier.radius },
        current: Disc { position: bullet.position, radius: bullet.radius },
    }
}

/// The colour of what belongs to `owner`.
fn color(owner: Id, me: Id) -> (color: Color)
    ensures
        color == color_of(owner, me),
{
    if owner == me {
        Color { r: 255, g: 255, b: 255 }
    } else {
        Color { r: 255, g: 0, b: 0 }
    }
}

/// The first message of a server has to be its greeting.
pub fn expect_init(message: TcpClientMessage) -> (result: Option<ClientInit>)
    ensures
        result == match message {
            TcpClientMessage::Init(init) => Some(init),
            _ => None,
        },
{
    match message {
        TcpClientMessage::Init(init) => Some(init),
        _ => None,
    }
}

/// The datagram by which the server recognises the client who was greeted so.
pub open spec fn hello_of(init: ClientInit) -> UdpServerMessage {
    UdpServerMessage::Init(ServerInit { random_bytes: init.random_bytes })
}

/// The datagram by which the server recognises the client.
pub fn hello(init: &ClientInit) -> (message: UdpServerMessage)
    ensures
        message == hello_of(*init),
{
    UdpServerMessage::Init(ServerInit { random_bytes: init.random_bytes })
}

/// What can happen to a client that makes itself known.
#[derive(Clone, Copy, Debug, PartialEq, Eq, Structural)]
pub enum HandshakeEvent {
    /// It is time to say hello.
    HelloDue,
    /// There is an answer.
    Answered,
}

/// What a client that makes itself known has to do next.
#[derive(Clone, Debug, PartialEq, Eq)]
pub enum HandshakeAction {
    /// Send the message, and wait.
    Say(UdpServerMessage),
    /// Start the game.
    Finish,
}

/// What a client does about an event while it makes itself known.
pub fn on_handshake(init: &ClientInit, event: HandshakeEvent) -> (action: HandshakeAction)
    ensures
        action == match event {
            HandshakeEvent::HelloDue => HandshakeAction::Say(hello_of(*init)),
            HandshakeEvent::Answered => HandshakeAction::Finish,
        },
{
    match event {
        HandshakeEvent::HelloDue => HandshakeAction::Say(hello(init)),
        HandshakeEvent::Answered => HandshakeAction::Finish,
    }
}

/// Whether an event is the answer.
pub open spec fn is_answer() -> spec_fn(HandshakeEvent) -> bool {
    |event: HandshakeEvent| event is Answered
}

/// What a client says as these events happen to it.
pub open spec fn hellos(init: ClientInit, events: Seq<HandshakeEvent>) -> Seq<UdpServerMessage>
    decreases events.len(),
{
    if events.len() == 0 {
        Seq::empty()
    } else {
        match events[0] {
            HandshakeEvent::HelloDue => seq![hello_of(init)] + hellos(init, events.drop_first()),
            HandshakeEvent::Answered => Seq::empty(),
        }
    }
}

impl Client {
    /// The pictures stand in order.
    pub open spec fn wf(&self) -> bool {
        self.timeline.wf()
    }

    /// Everything that the client draws: the players, and above them the bullets.
    pub open spec fn sprites(&self) -> Seq<Sprite> {
        self.timeline.current.players@.map_values(
            |player: Player|
                player_sprite(player, self.timeline.previous.players@, self.player_id),
        ) + self.timeline.current.bullets@.map_values(
            |bullet: Bullet|
                bullet_sprite(bullet, self.timeline.previous.bullets@, self.player_id),
        )
    }

    /// A client that has been greeted, whose clock shows `tick`.
    pub fn new(init: ClientInit, tick: Tick) -> (client: Client)
        ensures
            client.wf(),
            client.player_id == init.id,
            client.tick == tick,
            client.timeline.current == init.update,
            client.timeline.previous.tick == 0,
            client.timeline.previous.players@ == Seq::<Player>::empty(),
            client.timeline.previous.bullets@ == Seq::<Bullet>::empty(),
            client.input == (PlayerInput {
                tick: 0,
                up: false,
                left: false,
                down: false,
                right: false,
                mouse_left: false,
                mouse_right: false,
                angle: ZERO,
            }),
    {
        Client {
            timeline: Timeline::new(init.update),
            player_id: init.id,
            input: PlayerInput::idle(),
            tick,
        }
    }

    /// Notes what the player does.
    pub fn handle_event(&mut self, event: InputEvent) -> (flow: Flow)
        ensures
            *final(self) == (Client { input: after_event(old(self).input, event), ..*old(self) }),
            flow == (if event is Quit {
                Flow::Stop
            } else {
                Flow::Continue
            }),
    {
        self.input.apply(event)
    }

    /// Takes a message of the server.
    pub fn receive(&mut self, message: UdpClientMessage)
        requires
            old(self).wf(),
        ensures
            final(self).wf(),
            final(self).player_id == old(self).player_id,
            final(self).input == old(self).input,
            final(self).tick == old(self).tick,
            message matches UdpClientMessage::WorldUpdate(update) && (
                final(self).timeline.previous,
                final(self).timeline.current,
            ) == latest_two(old(self).timeline.previous, old(self).timeline.current, update),
    {
        match message {
            UdpClientMessage::WorldUpdate(update) => {
                self.timeline.merge(update);
            },
        }
    }

    /// Lets one tick pass.
    pub fn next_tick(&mut self)
        requires
            old(self).tick < u16::MAX,
        ensures
            final(self).tick == old(self).tick + 1,
            final(self).input == (PlayerInput { tick: final(self).tick, ..old(self).input }),
            final(self).timeline == old(self).timeline,
            final(self).player_id == old(self).player_id,
    {
        self.tick = self.tick + 1;
        self.input.tick = self.tick;
    }

    /// Where the client's own player is on its way. There is no telling when the
    /// current picture does not show the player.
    pub fn aim(&self) -> (result: Option<Aim>)
        requires
            self.wf(),
        ensures
            result matches Some(aim) ==> aim.progress.elapsed == self.timeline.aimed_at(
                self.tick as int,
            ),
            match player_in(self.timeline.current.players@, self.player_id) {
                None => result is None,
                Some(player) => {
                    &&& result matches Some(aim)
                    &&& aim.current == player.position
                    &&& aim.previous == player_before(
                        player,
                        self.timeline.previous.players@,
                    ).position
                    &&& aim.progress.elapsed == self.tick - self.timeline.previous.tick - 1
                    &&& aim.progress.span == self.timeline.current.tick
                        - self.timeline.previous.tick
                },
            },
    {
        let current = match self.timeline.current.player(self.player_id) {
            Some(update) => update.player,
            None => {
                return None;
            },
        };
        let previous = match self.timeline.previous.player(self.player_id) {
            Some(update) => update.player.position,
            None => current.position,
        };
        assert(current.id == self.player_id) by {
            crate::search::lemma_found(
                self.timeline.current.players@,
                crate::timeline::is_player(self.player_id),
            );
        }
        Some(
            Aim {
                progress: self.timeline.aim_progress(self.tick),
                previous,
                current: current.position,
            },
        )
    }

    /// What is to be drawn: the players, and above them the bullets.
    pub fn frame(&self) -> (frame: Frame)
        requires
            self.wf(),
        ensures
            frame.progress.span == self.timeline.current.tick - self.timeline.previous.tick,
            frame.progress.elapsed == self.tick - self.timeline.previous.tick
                - frame.progress.span,
            frame.progress.elapsed == self.timeline.drawn_at(self.tick as int),
            frame.sprites@ == self.timeline.current.players@.map_values(
                |player: Player|
                    player_sprite(player, self.timeline.previous.players@, self.player_id),
            ) + self.timeline.current.bullets@.map_values(
                |bullet: Bullet|
                    bullet_sprite(bullet, self.timeline.previous.bullets@, self.player_id),
            ),
            frame.sprites@ == self.sprites(),
            frame.sprites@.len() == self.timeline.current.players@.len()
                + self.timeline.current.bullets@.len(),
            forall|k: int|
                0 <= k < self.timeline.current.players@.len() ==> (
                #[trigger] frame.sprites@[k]).current == (Disc {
                    position: self.timeline.current.players@[k].position,
                    radius: self.timeline.current.players@[k].radius,
                }),
    {
        let current = &self.timeline.current;
        let previous = &self.timeline.previous;
        let ghost players = current.players@.map_values(
            |player: Player| player_sprite(player, previous.players@, self.player_id),
        );
        let ghost bullets = current.bullets@.map_values(
            |bullet: Bullet| bullet_sprite(bullet, previous.bullets@, self.player_id),
        );
        let mut sprites: Vec<Sprite> = Vec::new();
        let mut i: usize = 0;
        while i < current.players.len()
            invariant
                i <= current.players@.len(),
                players == current.players@.map_values(
                    |player: Player| player_sprite(player, previous.players@, self.player_id),
                ),
                sprites@ == players.take(i as int),
            decreases current.players@.len() - i,
        {
            let player = current.players[i];
            let earlier = match previous.player(player.id) {
                Some(update) => update.player,
                None => player,
            };
            sprites.push(
                Sprite {
                    color: color(player.id, self.player_id),
                    previous: Disc { position: earlier.position, radius: earlier.radius },
                    current: Disc { position: player.position, radius: player.radius },
                },
            );
            i = i + 1;
            assert(sprites@ =~= players.take(i as int));
        }
        let mut j: usize = 0;
        assert(sprites@ =~= players + bullets.take(0));
        while j < current.bullets.len()
            invariant
                j <= current.bullets@.len(),
                bullets == current.bullets@.map_values(
                    |bullet: Bullet| bullet_sprite(bullet, previous.bullets@, self.player_id),
                ),
                sprites@ == players + bullets.take(j as int),
            decreases current.bullets@.len() - j,
        {
            let bullet = current.bullets[j];
            let earlier = match previous.bullet(bullet.id) {
                Some(earlier) => earlier,
                None => bullet,
            };
            sprites.push(
                Sprite {
                    color: color(bullet.player_id, self.player_id),
                    previous: Disc { position: earlier.position, radius: earlier.radius },
                    current: Disc { position: bullet.position, radius: bullet.radius },
                },
            );
            j = j + 1;
            assert(sprites@ =~= players + bullets.take(j as int));
        }
        assert(sprites@ =~= players + bullets);
        Frame { progress: self.timeline.draw_progress(self.tick), sprites }
    }
}

} // verus!
