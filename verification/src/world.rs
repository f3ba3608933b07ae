//! The world that the server keeps.

use crate::arena::{
    get_session, insert_projectile, insert_session, new_projectiles, new_sessions, projectile_rows,
    projectiles, remove_projectile, remove_session, session_rows, sessions, set_projectile,
    set_session,
};
use crate::entity::{Address, Direction, Projectile, Session};
use crate::protocol::{
    Bullet, ClientInit, Id, Player, PlayerInput, TcpClientMessage, Tick, Timestamp, WorldUpdate,
    NUM_RANDOM_BYTES,
};
use crate::scalar::{Vector2, ONE, ZERO};
use crate::search::{first_where, lemma_first_where};
use crate::slots::{rank, Handle, SlotTable};
use generational_arena::Arena;
use vstd::prelude::*;

verus! {

/// How many players fit into a world of the usual size.
pub const MAX_PLAYERS: usize = 16;

/// How many bullets fit into a world of the usual size.
pub const MAX_BULLETS: usize = 1024;

/// How many ids there are for players. No world has room for more.
pub const PLAYER_IDS: usize = 256;

/// How many ids there are for bullets. No world has room for more.
pub const BULLET_IDS: usize = 65536;

/// The players, the bullets and the game time.
pub struct World {
    sessions: Arena<Session>,
    projectiles: Arena<Projectile>,
    tick: Tick,
    /// How many players have left.
    departures: u64,
    /// How many bullets have gone.
    removals: u64,
}

/// What is to be done for a player who has just joined.
#[derive(Debug, PartialEq, Eq)]
pub struct Welcome {
    pub handle: Handle,
    /// The players who get the message `joined`.
    pub recipients: Vec<Handle>,
    pub joined: TcpClientMessage,
    /// The message for the new player.
    pub init: ClientInit,
}

/// What is to be done for a player who has just left.
#[derive(Debug, PartialEq, Eq)]
pub struct Farewell {
    /// The players who get the message `left`.
    pub recipients: Vec<Handle>,
    pub left: TcpClientMessage,
}

/// A player who has just joined: at rest in the middle of the world.
pub open spec fn new_session(id: Id, random_bytes: [u8; NUM_RANDOM_BYTES]) -> Session {
    Session {
        player: Player {
            id,
            radius: ONE,
            position: Vector2 { x: ZERO, y: ZERO },
            velocity: Vector2 { x: ZERO, y: ZERO },
        },
        random_bytes,
        udp_addr: None,
        input: Direction { x: 0, y: 0 },
        angle: ZERO,
        firing: false,
        fire_counter: ZERO,
    }
}

/// The number of a bullet: its slot.
pub open spec fn bullet_number(handle: Handle) -> int {
    handle.slot as int
}

/// A bullet with the id that belongs to `handle`.
pub open spec fn numbered(projectile: Projectile, handle: Handle) -> Projectile {
    Projectile {
        bullet: Bullet { id: bullet_number(handle) as u16, ..projectile.bullet },
        ..projectile
    }
}

/// The handles of some rows.
pub open spec fn handles<T>(rows: Seq<(Handle, T)>) -> Seq<Handle> {
    Seq::new(rows.len(), |k: int| rows[k].0)
}

/// Whether a session waits for a datagram with these bytes.
pub open spec fn has_bytes(bytes: Seq<u8>) -> spec_fn((Handle, Session)) -> bool {
    |row: (Handle, Session)| row.1.random_bytes@ == bytes
}

/// Whether the datagrams of a session come from `from`.
pub open spec fn has_address(from: Address) -> spec_fn((Handle, Session)) -> bool {
    |row: (Handle, Session)| row.1.udp_addr == Some(from)
}

/// The addresses of the first `n` sessions, of those that have one.
pub open spec fn addresses(rows: Seq<(Handle, Session)>, n: int) -> Seq<Address>
    decreases n,
{
    if n <= 0 {
        Seq::empty()
    } else {
        match rows[n - 1].1.udp_addr {
            None => addresses(rows, n - 1),
            Some(address) => addresses(rows, n - 1).push(address),
        }
    }
}

/// The direction that the keys say: opposite keys cancel out.
pub open spec fn direction_of(input: PlayerInput) -> Direction {
    Direction {
        x: (if input.right { 1int } else { 0 } - if input.left { 1int } else { 0 }) as i32,
        y: (if input.down { 1int } else { 0 } - if input.up { 1int } else { 0 }) as i32,
    }
}

/// A session after an input of its player. One who does not fire has nothing
/// loaded.
pub open spec fn steered(session: Session, input: PlayerInput) -> Session {
    Session {
        input: direction_of(input),
        angle: input.angle,
        firing: input.mouse_left,
        fire_counter: if input.mouse_left {
            session.fire_counter
        } else {
            ZERO
        },
        ..session
    }
}

/// The first player who was given these bytes.
pub open spec fn holder_of(players: SlotTable<Session>, bytes: Seq<u8>) -> Option<Handle> {
    let k = first_where(players.rows(), has_bytes(bytes));
    if k < players.rows().len() {
        Some(players.rows()[k].0)
    } else {
        None
    }
}

/// The players once the first of them who was given these bytes is known to send
/// from `from`.
pub open spec fn after_binding(
    players: SlotTable<Session>,
    bytes: Seq<u8>,
    from: Address,
) -> SlotTable<Session> {
    match holder_of(players, bytes) {
        None => players,
        Some(handle) => players.set(
            handle,
            Session { udp_addr: Some(from), ..players.at(handle) },
        ),
    }
}

/// The first player who is known to send from `from`.
pub open spec fn sender_at(players: SlotTable<Session>, from: Address) -> Option<Handle> {
    let k = first_where(players.rows(), has_address(from));
    if k < players.rows().len() {
        Some(players.rows()[k].0)
    } else {
        None
    }
}

/// The players after inputs came from `from`: the last of them counts.
pub open spec fn after_inputs(
    players: SlotTable<Session>,
    from: Address,
    inputs: Seq<PlayerInput>,
) -> SlotTable<Session> {
    match sender_at(players, from) {
        None => players,
        Some(handle) => if inputs.len() == 0 {
            players
        } else {
            players.set(handle, steered(players.at(handle), inputs.last()))
        },
    }
}

impl World {
    /// The table of players.
    pub closed spec fn players(&self) -> SlotTable<Session> {
        sessions(self.sessions)
    }

    /// The table of bullets.
    pub closed spec fn bullets(&self) -> SlotTable<Projectile> {
        projectiles(self.projectiles)
    }

    /// The game time.
    pub closed spec fn now(&self) -> Tick {
        self.tick
    }

    /// Whether the world has counted right who left and what is gone.
    pub closed spec fn counts_removals(&self) -> bool {
        &&& self.departures == self.players().generation
        &&& self.removals == self.bullets().generation
    }

    /// What holds of every world: there is an id for everything that fits in, the
    /// id of a player or a bullet is its slot, and what has gone was counted.
    pub open spec fn wf(&self) -> bool {
        &&& self.counts_removals()
        &&& self.players().wf()
        &&& 0 < self.players().slots.len() <= PLAYER_IDS
        &&& forall|h: Handle| #[trigger]
            self.players().live(h) ==> self.players().at(h).player.id == h.slot
        &&& self.bullets().wf()
        &&& 0 < self.bullets().slots.len() <= BULLET_IDS
        &&& forall|h: Handle| #[trigger]
            self.bullets().live(h) ==> self.bullets().at(h).bullet.id == bullet_number(h)
    }

    /// Whether `update` shows the world as it is.
    pub open spec fn shown_by(&self, update: WorldUpdate) -> bool {
        &&& update.tick == self.now()
        &&& update.players@ == self.players().rows().map_values(
            |row: (Handle, Session)| row.1.player,
        )
        &&& update.bullets@ == self.bullets().rows().map_values(
            |row: (Handle, Projectile)| row.1.bullet,
        )
    }

    /// A world of the usual size without players and bullets, at tick zero.
    pub fn new() -> (world: World)
        ensures
            world.wf(),
            world.players() == SlotTable::<Session>::empty(MAX_PLAYERS as nat),
            world.bullets() == SlotTable::<Projectile>::empty(MAX_BULLETS as nat),
            world.now() == 0,
    {
        World::with_capacity(MAX_PLAYERS, MAX_BULLETS)
    }

    /// A world with room for so many players and bullets, but without any, at tick
    /// zero.
    pub fn with_capacity(players: usize, bullets: usize) -> (world: World)
        requires
            0 < players <= PLAYER_IDS,
            0 < bullets <= BULLET_IDS,
        ensures
            world.wf(),
            world.players() == SlotTable::<Session>::empty(players as nat),
            world.bullets() == SlotTable::<Projectile>::empty(bullets as nat),
            world.now() == 0,
    {
        proof {
            SlotTable::<Session>::empty_is_wf(players as nat);
            SlotTable::<Projectile>::empty_is_wf(bullets as nat);
        }
        World {
            sessions: new_sessions(players),
            projectiles: new_projectiles(bullets),
            tick: 0,
            departures: 0,
            removals: 0,
        }
    }
}

/// Whether two keys hold the same bytes.
fn same_bytes(a: &[u8; NUM_RANDOM_BYTES], b: &[u8; NUM_RANDOM_BYTES]) -> (same: bool)
    ensures
        same == (a@ == b@),
{
    let mut i: usize = 0;
    while i < NUM_RANDOM_BYTES
        invariant
            i <= NUM_RANDOM_BYTES,
            forall|j: int| 0 <= j < i ==> a@[j] == b@[j],
        decreases NUM_RANDOM_BYTES - i,
    {
        if a[i] != b[i] {
            return false;
        }
        i = i + 1;
    }
    assert(a@ =~= b@);
    true
}

/// The handles of all rows but one.
fn others(rows: &Vec<(Handle, Session)>, me: Handle, Ghost(at): Ghost<int>) -> (result: Vec<Handle>)
    requires
        0 <= at < rows@.len(),
        forall|k: int| 0 <= k < rows@.len() ==> ((#[trigger] rows@[k]).0 == me <==> k == at),
    ensures
        result@ == handles(rows@.remove(at)),
{
    let mut result: Vec<Handle> = Vec::new();
    let mut i: usize = 0;
    while i < rows.len()
        invariant
            i <= rows@.len(),
            0 <= at < rows@.len(),
            forall|k: int| 0 <= k < rows@.len() ==> ((#[trigger] rows@[k]).0 == me <==> k == at),
            result@ == handles(rows@.remove(at)).take(if i <= at { i as int } else { i - 1 }),
        decreases rows@.len() - i,
    {
        let handle = rows[i].0;
        if handle != me {
            result.push(handle);
            let ghost all = handles(rows@.remove(at));
            let ghost n: int = if i <= at { i as int } else { i - 1 };
            assert(all[n] == handle);
            assert(result@ =~= all.take(n + 1));
        }
        i = i + 1;
    }
    assert(result@ =~= handles(rows@.remove(at)));
    result
}

/// The direction that the keys say.
fn direction(input: &PlayerInput) -> (result: Direction)
    ensures
        result == direction_of(*input),
{
    let right: i32 = if input.right { 1 } else { 0 };
    let left: i32 = if input.left { 1 } else { 0 };
    let down: i32 = if input.down { 1 } else { 0 };
    let up: i32 = if input.up { 1 } else { 0 };
    Direction { x: right - left, y: down - up }
}

/// The id of the bullet that `handle` names.
fn bullet_id(handle: Handle) -> (id: u16)
    requires
        handle.slot < BULLET_IDS,
    ensures
        id == bullet_number(handle),
{
    handle.slot as u16
}

impl World {
    /// The connected players with their handles, in slot order.
    pub fn player_rows(&self) -> (rows: Vec<(Handle, Session)>)
        ensures
            rows@ == self.players().rows(),
    {
        session_rows(&self.sessions)
    }

    /// The bullets in flight with their handles, in slot order.
    pub fn bullet_rows(&self) -> (rows: Vec<(Handle, Projectile)>)
        ensures
            rows@ == self.bullets().rows(),
    {
        projectile_rows(&self.projectiles)
    }

    /// The game time.
    pub fn tick(&self) -> (tick: Tick)
        ensures
            tick == self.now(),
    {
        self.tick
    }

    /// The player that `handle` names, if there is one.
    pub fn player(&self, handle: Handle) -> (result: Option<Session>)
        ensures
            result == self.players().get(handle),
    {
        get_session(&self.sessions, handle)
    }

    /// Whether one more player can leave before the count of those who left is at
    /// its end.
    pub fn can_disconnect(&self) -> (can: bool)
        requires
            self.wf(),
        ensures
            can == (self.players().generation < u64::MAX),
    {
        self.departures < u64::MAX
    }

    /// Whether all bullets can go in one step before the count of those that are
    /// gone is at its end.
    pub fn can_step(&self) -> (can: bool)
        requires
            self.wf(),
        ensures
            can == (self.bullets().generation + self.bullets().rows().len() <= u64::MAX),
    {
        let flying: usize = projectile_rows(&self.projectiles).len();
        self.removals <= u64::MAX - flying as u64
    }

    /// Replaces a player.
    pub(crate) fn set_player(&mut self, handle: Handle, session: Session)
        requires
            old(self).wf(),
            old(self).players().live(handle),
            session.player.id == handle.slot,
        ensures
            final(self).wf(),
            final(self).players() == old(self).players().set(handle, session),
            final(self).bullets() == old(self).bullets(),
            final(self).now() == old(self).now(),
    {
        proof {
            self.players().set_is_wf(handle, session);
        }
        set_session(&mut self.sessions, handle, session);
        assert forall|h: Handle| #[trigger] self.players().live(h) implies self.players().at(
            h,
        ).player.id == h.slot by {
            assert(old(self).players().live(h));
        }
    }

    /// Replaces a bullet.
    pub(crate) fn set_bullet(&mut self, handle: Handle, projectile: Projectile)
        requires
            old(self).wf(),
            old(self).bullets().live(handle),
            projectile.bullet.id == bullet_number(handle),
        ensures
            final(self).wf(),
            final(self).bullets() == old(self).bullets().set(handle, projectile),
            final(self).players() == old(self).players(),
            final(self).now() == old(self).now(),
    {
        proof {
            self.bullets().set_is_wf(handle, projectile);
        }
        set_projectile(&mut self.projectiles, handle, projectile);
        assert forall|h: Handle| #[trigger] self.bullets().live(h) implies self.bullets().at(
            h,
        ).bullet.id == bullet_number(h) by {
            assert(old(self).bullets().live(h));
        }
    }

    /// Adds a bullet, unless there are too many. The bullet gets its id here.
    pub(crate) fn add_bullet(&mut self, projectile: Projectile) -> (added: bool)
        requires
            old(self).wf(),
        ensures
            final(self).wf(),
            final(self).players() == old(self).players(),
            final(self).now() == old(self).now(),
            added == !old(self).bullets().full(),
            !added ==> final(self).bullets() == old(self).bullets(),
            added ==> final(self).bullets() == old(self).bullets().insert(
                numbered(projectile, old(self).bullets().next_handle()),
            ),
    {
        match insert_projectile(&mut self.projectiles, projectile) {
            Ok(handle) => {
                assert(handle.slot == old(self).bullets().vacant[0]);
                let named = Projectile {
                    bullet: Bullet { id: bullet_id(handle), ..projectile.bullet },
                    ..projectile
                };
                proof {
                    old(self).bullets().insert_is_wf(projectile);
                    old(self).bullets().insert_is_wf(named);
                    assert(named == numbered(projectile, handle));
                    assert(old(self).bullets().insert(projectile).set(handle, named)
                        =~= old(self).bullets().insert(named));
                }
                set_projectile(&mut self.projectiles, handle, named);
                assert forall|h: Handle| #[trigger]
                    self.bullets().live(h) implies self.bullets().at(h).bullet.id
                    == bullet_number(h) by {
                    if h.slot != handle.slot {
                        assert(old(self).bullets().live(h));
                    }
                }
                true
            },
            Err(_) => false,
        }
    }

    /// Takes a bullet away.
    pub(crate) fn remove_bullet(&mut self, handle: Handle)
        requires
            old(self).wf(),
            old(self).bullets().live(handle),
            old(self).bullets().generation < u64::MAX,
        ensures
            final(self).wf(),
            final(self).bullets() == old(self).bullets().remove(handle),
            final(self).players() == old(self).players(),
            final(self).now() == old(self).now(),
    {
        proof {
            self.bullets().remove_is_wf(handle);
        }
        remove_projectile(&mut self.projectiles, handle);
        self.removals = self.removals + 1;
        assert forall|h: Handle| #[trigger] self.bullets().live(h) implies self.bullets().at(
            h,
        ).bullet.id == bullet_number(h) by {
            assert(old(self).bullets().live(h));
        }
    }
}

/// Draws the bytes by which a new client will be recognised. Calls
/// `rand::random`; nothing is claimed of what comes back. That it comes back at
/// all takes a system that can supply randomness.
#[verifier::external_body]
fn draw_bytes() -> [u8; NUM_RANDOM_BYTES] {
    rand::random()
}

/// What it means that a player was let in, or turned away, with these bytes.
pub open spec fn accepted(
    before: World,
    after: World,
    random_bytes: [u8; NUM_RANDOM_BYTES],
    tick_rate: u32,
    tick_zero: Timestamp,
    result: Option<Welcome>,
) -> bool {
    &&& after.bullets() == before.bullets()
    &&& after.now() == before.now()
    &&& match result {
        // The world is full, and stays as it is.
        None => before.players().full() && after.players() == before.players(),
        Some(welcome) => {
            let handle = before.players().next_handle();
            let id = handle.slot as u8;
            &&& !before.players().full()
            &&& after.players() == before.players().insert(new_session(id, random_bytes))
            &&& welcome.handle == handle
            // Those who were there before hear of it.
            &&& welcome.recipients@ == handles(before.players().rows())
            &&& welcome.joined == TcpClientMessage::PlayerJoined(id)
            &&& welcome.init.id == id
            &&& welcome.init.random_bytes == random_bytes
            &&& after.shown_by(welcome.init.update)
            &&& welcome.init.tick_rate == tick_rate % 256
            &&& welcome.init.tick_zero == tick_zero
        },
    }
}

/// What it means that a player was let in, or turned away, with some bytes.
pub open spec fn accepted_at_random(
    before: World,
    after: World,
    tick_rate: u32,
    tick_zero: Timestamp,
    result: Option<Welcome>,
) -> bool {
    exists|random_bytes: [u8; NUM_RANDOM_BYTES]|
        accepted(before, after, random_bytes, tick_rate, tick_zero, result)
}

impl World {
    /// Lets a new player in, who will be recognised by `random_bytes`, unless
    /// the world is full.
    pub fn accept_with(
        &mut self,
        random_bytes: [u8; NUM_RANDOM_BYTES],
        tick_rate: u32,
        tick_zero: Timestamp,
    ) -> (result: Option<Welcome>)
        requires
            old(self).wf(),
        ensures
            final(self).wf(),
            accepted(*old(self), *final(self), random_bytes, tick_rate, tick_zero, result),
    {
        let session = Session {
            player: Player {
                id: 0,
                radius: ONE,
                position: Vector2 { x: ZERO, y: ZERO },
                velocity: Vector2 { x: ZERO, y: ZERO },
            },
            random_bytes,
            udp_addr: None,
            input: Direction { x: 0, y: 0 },
            angle: ZERO,
            firing: false,
            fire_counter: ZERO,
        };
        let handle = match insert_session(&mut self.sessions, session) {
            Ok(handle) => handle,
            Err(_) => {
                return None;
            },
        };
        let id: u8 = handle.slot as u8;
        let named = Session { player: Player { id, ..session.player }, ..session };
        proof {
            let before = old(self).players();
            before.insert_is_wf(session);
            before.insert_is_wf(named);
            assert(named == new_session(id, random_bytes));
            assert(before.insert(session).set(handle, named) =~= before.insert(named));
        }
        set_session(&mut self.sessions, handle, named);
        assert forall|h: Handle| #[trigger] self.players().live(h) implies self.players().at(
            h,
        ).player.id == h.slot by {
            if h.slot != handle.slot {
                assert(old(self).players().live(h));
            }
        }

        let rows = session_rows(&self.sessions);
        let ghost at = rank(old(self).players().slots, handle.slot as int);
        proof {
            self.players().rows_are_live();
            assert(rows@.remove(at) =~= old(self).players().rows());
            assert forall|k: int| 0 <= k < rows@.len() implies ((#[trigger] rows@[k]).0 == handle
                <==> k == at) by {
                assert(rows@[at].0 == handle);
            }
        }
        let recipients = others(&rows, handle, Ghost(at));
        let update = self.snapshot();
        #[verifier::truncate]
        let tick_rate_byte: u8 = tick_rate as u8;
        assert(tick_rate as u8 == tick_rate % 256) by (bit_vector);
        Some(
            Welcome {
                handle,
                recipients,
                joined: TcpClientMessage::PlayerJoined(id),
                init: ClientInit {
                    id,
                    random_bytes,
                    update,
                    tick_rate: tick_rate_byte,
                    tick_zero,
                },
            },
        )
    }

    /// Lets a new player in, unless the world is full. The bytes by which the
    /// player will be recognised are drawn at random.
    pub fn accept(&mut self, tick_rate: u32, tick_zero: Timestamp) -> (result: Option<Welcome>)
        requires
            old(self).wf(),
        ensures
            final(self).wf(),
            accepted_at_random(*old(self), *final(self), tick_rate, tick_zero, result),
            result is None <==> old(self).players().full(),
    {
        let random_bytes = draw_bytes();
        self.accept_with(random_bytes, tick_rate, tick_zero)
    }

    /// Takes the player out that `handle` names.
    pub fn disconnect(&mut self, handle: Handle) -> (farewell: Farewell)
        requires
            old(self).wf(),
            old(self).players().live(handle),
            old(self).players().generation < u64::MAX,
        ensures
            final(self).wf(),
            final(self).players() == old(self).players().remove(handle),
            final(self).bullets() == old(self).bullets(),
            final(self).now() == old(self).now(),
            // Those who stay hear of it.
            farewell.recipients@ == handles(final(self).players().rows()),
            farewell.left == TcpClientMessage::PlayerLeft(
                old(self).players().at(handle).player.id,
            ),
    {
        let rows = session_rows(&self.sessions);
        let ghost at = rank(old(self).players().slots, handle.slot as int);
        proof {
            self.players().rows_are_live();
            self.players().remove_is_wf(handle);
        }
        let id: u8 = handle.slot as u8;
        let recipients = others(&rows, handle, Ghost(at));
        remove_session(&mut self.sessions, handle);
        self.departures = self.departures + 1;
        assert forall|h: Handle| #[trigger] self.players().live(h) implies self.players().at(
            h,
        ).player.id == h.slot by {
            assert(old(self).players().live(h));
        }
        Farewell { recipients, left: TcpClientMessage::PlayerLeft(id) }
    }

    /// A picture of the world as it is.
    pub fn snapshot(&self) -> (update: WorldUpdate)
        ensures
            self.shown_by(update),
    {
        let rows = session_rows(&self.sessions);
        let mut players: Vec<Player> = Vec::new();
        let mut i: usize = 0;
        while i < rows.len()
            invariant
                i <= rows@.len(),
                players@ == rows@.map_values(|row: (Handle, Session)| row.1.player).take(i as int),
            decreases rows@.len() - i,
        {
            players.push(rows[i].1.player);
            i = i + 1;
            assert(players@ =~= rows@.map_values(|row: (Handle, Session)| row.1.player).take(
                i as int,
            ));
        }
        let shots = projectile_rows(&self.projectiles);
        let mut bullets: Vec<Bullet> = Vec::new();
        let mut j: usize = 0;
        while j < shots.len()
            invariant
                j <= shots@.len(),
                bullets@ == shots@.map_values(|row: (Handle, Projectile)| row.1.bullet).take(
                    j as int,
                ),
            decreases shots@.len() - j,
        {
            bullets.push(shots[j].1.bullet);
            j = j + 1;
            assert(bullets@ =~= shots@.map_values(|row: (Handle, Projectile)| row.1.bullet).take(
                j as int,
            ));
        }
        assert(players@ =~= rows@.map_values(|row: (Handle, Session)| row.1.player));
        assert(bullets@ =~= shots@.map_values(|row: (Handle, Projectile)| row.1.bullet));
        WorldUpdate { tick: self.tick, players, bullets }
    }

    /// Where a snapshot is to be sent: to every player whose address is known.
    pub fn snapshot_targets(&self) -> (targets: Vec<Address>)
        ensures
            targets@ == addresses(self.players().rows(), self.players().rows().len() as int),
    {
        let rows = session_rows(&self.sessions);
        let mut targets: Vec<Address> = Vec::new();
        let mut i: usize = 0;
        while i < rows.len()
            invariant
                i <= rows@.len(),
                targets@ == addresses(rows@, i as int),
            decreases rows@.len() - i,
        {
            if let Some(address) = rows[i].1.udp_addr {
                targets.push(address);
            }
            i = i + 1;
        }
        targets
    }

    /// Learns that the player who was given `random_bytes` sends from `from`.
    /// Of several such players it is the first.
    pub fn bind_address(&mut self, random_bytes: &[u8; NUM_RANDOM_BYTES], from: Address) -> (result:
        Option<Handle>)
        requires
            old(self).wf(),
        ensures
            final(self).wf(),
            final(self).bullets() == old(self).bullets(),
            final(self).now() == old(self).now(),
            result == holder_of(old(self).players(), random_bytes@),
            final(self).players() == after_binding(old(self).players(), random_bytes@, from),
            result matches Some(h) ==> final(self).players().at(h).udp_addr == Some(from),
            final(self).players().slots.len() == old(self).players().slots.len(),
    {
        let rows = session_rows(&self.sessions);
        let mut i: usize = 0;
        while i < rows.len()
            invariant
                i <= rows@.len(),
                self == old(self),
                self.wf(),
                rows@ == self.players().rows(),
                forall|j: int| 0 <= j < i ==> !has_bytes(random_bytes@)(#[trigger] rows@[j]),
            decreases rows@.len() - i,
        {
            let (handle, session) = rows[i];
            if same_bytes(&session.random_bytes, random_bytes) {
                proof {
                    lemma_first_where(rows@, has_bytes(random_bytes@), i as int);
                    self.players().rows_are_live();
                    assert(self.players().live(rows@[i as int].0));
                }
                self.set_player(handle, Session { udp_addr: Some(from), ..session });
                return Some(handle);
            }
            i = i + 1;
        }
        proof {
            lemma_first_where(rows@, has_bytes(random_bytes@), i as int);
        }
        None
    }

    /// Takes the last of the inputs that came from `from`. Inputs from an
    /// address that no player is known by are ignored.
    pub fn apply_inputs(&mut self, from: Address, inputs: &Vec<PlayerInput>) -> (result: Option<
        Handle,
    >)
        requires
            old(self).wf(),
        ensures
            final(self).wf(),
            final(self).bullets() == old(self).bullets(),
            final(self).now() == old(self).now(),
            result == (if inputs@.len() > 0 {
                sender_at(old(self).players(), from)
            } else {
                None
            }),
            final(self).players() == after_inputs(old(self).players(), from, inputs@),
            result matches Some(h) ==> final(self).players().at(h).angle == inputs@.last().angle,
            result matches Some(h) ==> final(self).players().at(h).firing
                == inputs@.last().mouse_left,
            final(self).players().slots.len() == old(self).players().slots.len(),
    {
        let rows = session_rows(&self.sessions);
        let mut i: usize = 0;
        while i < rows.len()
            invariant
                i <= rows@.len(),
                self == old(self),
                self.wf(),
                rows@ == self.players().rows(),
                forall|j: int| 0 <= j < i ==> !has_address(from)(#[trigger] rows@[j]),
            decreases rows@.len() - i,
        {
            let (handle, session) = rows[i];
            if let Some(address) = session.udp_addr {
                if address == from {
                    proof {
                        lemma_first_where(rows@, has_address(from), i as int);
                        self.players().rows_are_live();
                        assert(self.players().live(rows@[i as int].0));
                    }
                    if inputs.len() == 0 {
                        return None;
                    }
                    let input = inputs[inputs.len() - 1];
                    self.set_player(
                        handle,
                        Session {
                            input: direction(&input),
                            angle: input.angle,
                            firing: input.mouse_left,
                            fire_counter: if input.mouse_left {
                                session.fire_counter
                            } else {
                                ZERO
                            },
                            ..session
                        },
                    );
                    return Some(handle);
                }
            }
            i = i + 1;
        }
        proof {
            lemma_first_where(rows@, has_address(from), i as int);
        }
        None
    }

    /// Lets one tick pass. After the last tick comes tick zero.
    pub(crate) fn advance(&mut self)
        requires
            old(self).wf(),
        ensures
            final(self).wf(),
            final(self).players() == old(self).players(),
            final(self).bullets() == old(self).bullets(),
            final(self).now() == (old(self).now() + 1) % 65536,
    {
        self.tick = self.tick.wrapping_add(1);
    }
}

} // verus!
