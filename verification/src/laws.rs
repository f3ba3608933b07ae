//! What holds of the game as a whole.

use crate::client::{hello_of, hellos, is_answer, HandshakeEvent};
use crate::connection::{
    ends_writing, hangs_up, outgoing, signals, written, ConnectionEvent, WriterEvent,
};
use crate::entity::{Address, Projectile, Session};
use crate::protocol::{
    Bullet, ClientInit, Id, Player, PlayerInput, Timestamp, WorldUpdate, NUM_RANDOM_BYTES,
};
use crate::scalar::{Scalar, ZERO};
use crate::search::{first_where, lemma_first_where, lemma_found};
use crate::slots::{lemma_rows_complete, rank, rows_of, Handle, SlotTable};
use crate::step::{
    after_encounters, after_expiry, after_firing, after_motions, all_pairs, answers_loadings,
    answers_motions, answers_outcome, answers_outcomes, flown, lemma_pairs, lemma_pairs_are_live,
    loaded, moved, pairs, pairs_with, shot_by, Answers, Loading, Motion,
};
use crate::timeline::{bullet_in, is_bullet, is_player, latest_two, player_in};
use crate::world::{
    accepted, addresses, after_binding, after_inputs, direction_of, handles, has_address,
    has_bytes, holder_of, new_session, numbered, sender_at, Welcome, World, BULLET_IDS, PLAYER_IDS,
};
use vstd::prelude::*;

verus! {

/// No two players have the same id.
pub proof fn ids_are_distinct(world: World, a: Handle, b: Handle)
    requires
        world.wf(),
        world.players().live(a),
        world.players().live(b),
        a != b,
    ensures
        world.players().at(a).player.id != world.players().at(b).player.id,
{
}

/// No two bullets have the same id.
pub proof fn bullet_ids_are_distinct(world: World, a: Handle, b: Handle)
    requires
        world.wf(),
        world.bullets().live(a),
        world.bullets().live(b),
        a != b,
    ensures
        world.bullets().at(a).bullet.id != world.bullets().at(b).bullet.id,
{
}

/// The world is full when there are as many players as it has slots for, and never
/// holds more; so it is with the bullets. No world holds more than there are ids for.
pub proof fn there_is_room_for_so_many(world: World)
    requires
        world.wf(),
    ensures
        world.players().rows().len() <= world.players().slots.len() <= PLAYER_IDS,
        world.players().full() <==> world.players().rows().len() == world.players().slots.len(),
        world.bullets().rows().len() <= world.bullets().slots.len() <= BULLET_IDS,
        world.bullets().full() <==> world.bullets().rows().len() == world.bullets().slots.len(),
{
}

/// Whether `h` has named an entry that is gone.
pub open spec fn retired<T>(table: SlotTable<T>, h: Handle) -> bool {
    !table.live(h) && h.generation < table.generation
}

/// The handle of an entry that was taken out is retired.
pub proof fn removal_retires<T>(table: SlotTable<T>, h: Handle)
    requires
        table.wf(),
        table.live(h),
    ensures
        retired(table.remove(h), h),
{
}

/// A retired handle never names anything again, whatever happens to the table.
pub proof fn retired_for_good<T>(table: SlotTable<T>, h: Handle, value: T, other: Handle)
    requires
        table.wf(),
        retired(table, h),
    ensures
        !table.full() ==> retired(table.insert(value), h),
        table.live(other) ==> retired(table.set(other, value), h),
        table.live(other) ==> retired(table.remove(other), h),
{
}

/// Who joins and leaves again leaves everything as it was, but for the generation.
pub proof fn leaving_undoes_joining<T>(table: SlotTable<T>, value: T)
    requires
        table.wf(),
        !table.full(),
    ensures
        table.insert(value).remove(table.next_handle()) == (SlotTable {
            generation: table.generation + 1,
            ..table
        }),
{
    let back = table.insert(value).remove(table.next_handle());
    assert(table.slots[table.vacant[0] as int] is None);
    assert(back.slots =~= table.slots);
    assert(back.vacant =~= table.vacant);
}

/// A slot that has become free is the next one to be filled, under a handle that
/// has not been used for it before.
pub proof fn free_slot_is_reused<T>(table: SlotTable<T>, h: Handle)
    requires
        table.wf(),
        table.live(h),
        table.generation < u64::MAX,
    ensures
        !table.remove(h).full(),
        table.remove(h).next_handle().slot == h.slot,
        table.remove(h).next_handle().generation > h.generation,
{
}

/// The rows of a table name each entry once.
pub(crate) proof fn lemma_row_at<T>(table: SlotTable<T>, k: int, h: Handle)
    requires
        table.wf(),
        0 <= k < table.rows().len(),
        table.live(h),
        table.rows()[k].0.slot == h.slot,
    ensures
        table.rows()[k] == (h, table.at(h)),
        k == rank(table.slots, h.slot as int),
{
    table.rows_are_live();
    let r = rank(table.slots, h.slot as int);
    assert(table.live(table.rows()[k].0));
    if r < k {
        assert(table.rows()[r].0.slot < table.rows()[k].0.slot);
    }
    if k < r {
        assert(table.rows()[k].0.slot < table.rows()[r].0.slot);
    }
}

/// The first row where `p` holds is that of `h`, if `h` is the only one for which
/// it holds.
proof fn lemma_first_is_only<T>(table: SlotTable<T>, p: spec_fn((Handle, T)) -> bool, h: Handle)
    requires
        table.wf(),
        table.live(h),
        p((h, table.at(h))),
        forall|g: Handle| #[trigger] table.live(g) && g != h ==> !p((g, table.at(g))),
    ensures
        first_where(table.rows(), p) == rank(table.slots, h.slot as int),
        rank(table.slots, h.slot as int) < table.rows().len(),
        table.rows()[rank(table.slots, h.slot as int)] == (h, table.at(h)),
{
    table.rows_are_live();
    let r = rank(table.slots, h.slot as int);
    assert forall|j: int| 0 <= j < r implies !p(#[trigger] table.rows()[j]) by {
        let g = table.rows()[j].0;
        assert(table.rows()[j].0.slot < table.rows()[r].0.slot);
        assert(table.live(g));
        assert(table.rows()[j] == (g, table.at(g)));
    }
    lemma_first_where(table.rows(), p, r);
}

/// The handshake. The bytes in a player's greeting, sent back from an address that
/// nobody uses, bind that address to this very player and change nobody else; from
/// then on inputs from there steer this player. It takes that nobody was given the
/// same bytes before.
pub proof fn greeting_identifies_player(
    before: World,
    after: World,
    random_bytes: [u8; NUM_RANDOM_BYTES],
    tick_rate: u32,
    tick_zero: Timestamp,
    welcome: Welcome,
    from: Address,
)
    requires
        before.wf(),
        after.wf(),
        accepted(before, after, random_bytes, tick_rate, tick_zero, Some(welcome)),
        forall|h: Handle| #[trigger]
            before.players().live(h) ==> before.players().at(h).random_bytes@ != random_bytes@
                && before.players().at(h).udp_addr != Some(from),
    ensures
        holder_of(after.players(), welcome.init.random_bytes@) == Some(welcome.handle),
        ({
            let bound = after_binding(after.players(), welcome.init.random_bytes@, from);
            &&& bound.at(welcome.handle) == (Session {
                udp_addr: Some(from),
                ..after.players().at(welcome.handle)
            })
            &&& forall|h: Handle|
                after.players().live(h) && h != welcome.handle ==> #[trigger] bound.live(h)
                    && bound.at(h) == after.players().at(h)
            &&& sender_at(bound, from) == Some(welcome.handle)
        }),
{
    let h = welcome.handle;
    let players = after.players();
    let session = new_session(h.slot as u8, random_bytes);
    before.players().insert_is_wf(session);
    assert forall|g: Handle| #[trigger] players.live(g) && g != h implies before.players().live(g)
        && players.at(g) == before.players().at(g) by {
        if g.slot == h.slot {
            assert(false);
        }
    }
    assert forall|g: Handle| #[trigger] players.live(g) && g != h implies !has_bytes(
        random_bytes@,
    )((g, players.at(g))) by {
        assert(before.players().live(g));
    }
    lemma_first_is_only(players, has_bytes(random_bytes@), h);
    let bound = after_binding(players, random_bytes@, from);
    players.set_is_wf(h, Session { udp_addr: Some(from), ..players.at(h) });
    assert forall|g: Handle| #[trigger] bound.live(g) && g != h implies !has_address(from)(
        (g, bound.at(g)),
    ) by {
        assert(players.live(g));
        assert(before.players().live(g));
    }
    lemma_first_is_only(bound, has_address(from), h);
}

/// Datagrams with bytes that nobody was given, and inputs from an address that
/// nobody is known by, change nothing.
pub proof fn strangers_are_ignored(
    players: SlotTable<Session>,
    bytes: Seq<u8>,
    from: Address,
    inputs: Seq<PlayerInput>,
)
    requires
        players.wf(),
    ensures
        (forall|h: Handle| #[trigger] players.live(h) ==> players.at(h).random_bytes@ != bytes)
            ==> after_binding(players, bytes, from) == players,
        (forall|h: Handle| #[trigger] players.live(h) ==> players.at(h).udp_addr != Some(from))
            ==> after_inputs(players, from, inputs) == players,
{
    players.rows_are_live();
    lemma_found(players.rows(), has_bytes(bytes));
    lemma_found(players.rows(), has_address(from));
    let b = first_where(players.rows(), has_bytes(bytes));
    let a = first_where(players.rows(), has_address(from));
    if b < players.rows().len() {
        assert(players.live(players.rows()[b].0));
    }
    if a < players.rows().len() {
        assert(players.live(players.rows()[a].0));
    }
}

/// A datagram touches one player at most, and of that player nothing that other
/// players see.
pub proof fn datagrams_move_nobody(
    players: SlotTable<Session>,
    bytes: Seq<u8>,
    from: Address,
    inputs: Seq<PlayerInput>,
    h: Handle,
)
    requires
        players.wf(),
        players.live(h),
    ensures
        after_binding(players, bytes, from).live(h),
        after_binding(players, bytes, from).at(h).player == players.at(h).player,
        holder_of(players, bytes) != Some(h) ==> after_binding(players, bytes, from).at(h)
            == players.at(h),
        after_inputs(players, from, inputs).live(h),
        after_inputs(players, from, inputs).at(h).player == players.at(h).player,
        sender_at(players, from) != Some(h) ==> after_inputs(players, from, inputs).at(h)
            == players.at(h),
{
    players.rows_are_live();
    lemma_found(players.rows(), has_bytes(bytes));
    lemma_found(players.rows(), has_address(from));
    let b = first_where(players.rows(), has_bytes(bytes));
    let a = first_where(players.rows(), has_address(from));
    if b < players.rows().len() {
        assert(players.live(players.rows()[b].0));
    }
    if a < players.rows().len() {
        assert(players.live(players.rows()[a].0));
    }
}

/// A push goes one step at most along each axis; opposite keys cancel out, and so
/// do no keys at all.
pub proof fn pushes_are_bounded(input: PlayerInput)
    ensures
        -1 <= direction_of(input).x <= 1,
        -1 <= direction_of(input).y <= 1,
        input.left == input.right <==> direction_of(input).x == 0,
        input.up == input.down <==> direction_of(input).y == 0,
        direction_of(input).x > 0 ==> input.right,
        direction_of(input).y > 0 ==> input.down,
{
}

/// A picture of the world shows every player, under the player's id.
pub proof fn picture_shows_everyone(world: World, update: WorldUpdate, h: Handle)
    requires
        world.wf(),
        world.shown_by(update),
        world.players().live(h),
    ensures
        player_in(update.players@, world.players().at(h).player.id) == Some(
            world.players().at(h).player,
        ),
{
    let players = world.players();
    let id = players.at(h).player.id;
    let r = rank(players.slots, h.slot as int);
    players.rows_are_live();
    assert forall|j: int| 0 <= j < r implies !is_player(id)(#[trigger] update.players@[j]) by {
        assert(players.rows()[j].0.slot < players.rows()[r].0.slot);
        assert(players.live(players.rows()[j].0));
    }
    lemma_first_where(update.players@, is_player(id), r);
}

/// A picture of the world shows every bullet, under the bullet's id.
pub proof fn picture_shows_every_bullet(world: World, update: WorldUpdate, h: Handle)
    requires
        world.wf(),
        world.shown_by(update),
        world.bullets().live(h),
    ensures
        bullet_in(update.bullets@, world.bullets().at(h).bullet.id) == Some(
            world.bullets().at(h).bullet,
        ),
{
    let bullets = world.bullets();
    let id = bullets.at(h).bullet.id;
    let r = rank(bullets.slots, h.slot as int);
    bullets.rows_are_live();
    assert forall|j: int| 0 <= j < r implies !is_bullet(id)(#[trigger] update.bullets@[j]) by {
        assert(bullets.rows()[j].0.slot < bullets.rows()[r].0.slot);
        assert(bullets.live(bullets.rows()[j].0));
    }
    lemma_first_where(update.bullets@, is_bullet(id), r);
}

/// A picture of the world shows nobody but its players.
pub proof fn picture_shows_nobody_else(world: World, update: WorldUpdate, k: int) -> (h: Handle)
    requires
        world.wf(),
        world.shown_by(update),
        0 <= k < update.players@.len(),
    ensures
        world.players().live(h),
        world.players().at(h).player == update.players@[k],
{
    world.players().rows_are_live();
    let h = world.players().rows()[k].0;
    assert(world.players().live(h));
    h
}

/// A new player is in the picture that the greeting holds, at rest in the middle.
pub proof fn newcomer_is_in_the_picture(
    before: World,
    after: World,
    random_bytes: [u8; NUM_RANDOM_BYTES],
    tick_rate: u32,
    tick_zero: Timestamp,
    welcome: Welcome,
)
    requires
        before.wf(),
        after.wf(),
        accepted(before, after, random_bytes, tick_rate, tick_zero, Some(welcome)),
    ensures
        player_in(welcome.init.update.players@, welcome.init.id) == Some(
            new_session(welcome.init.id, random_bytes).player,
        ),
{
    before.players().insert_is_wf(new_session(welcome.init.id, random_bytes));
    picture_shows_everyone(after, welcome.init.update, welcome.handle);
}

/// Nobody is told of one's own coming: a new player is not among those who get the
/// message.
pub proof fn newcomer_is_not_told(
    before: World,
    after: World,
    random_bytes: [u8; NUM_RANDOM_BYTES],
    tick_rate: u32,
    tick_zero: Timestamp,
    welcome: Welcome,
)
    requires
        before.wf(),
        accepted(before, after, random_bytes, tick_rate, tick_zero, Some(welcome)),
    ensures
        !welcome.recipients@.contains(welcome.handle),
        forall|h: Handle|
            after.players().live(h) && h != welcome.handle ==> #[trigger]
            welcome.recipients@.contains(h),
{
    let players = before.players();
    players.rows_are_live();
    players.insert_is_wf(new_session(welcome.init.id, random_bytes));
    assert forall|k: int| 0 <= k < welcome.recipients@.len() implies welcome.recipients@[k]
        != welcome.handle by {
        assert(players.live(players.rows()[k].0));
    }
    assert forall|h: Handle| after.players().live(h) && h != welcome.handle implies #[trigger]
        welcome.recipients@.contains(h) by {
        assert(players.live(h));
        let r = rank(players.slots, h.slot as int);
        assert(welcome.recipients@[r] == h);
    }
}

/// Snapshots go to the addresses that are known, and nowhere else.
pub proof fn snapshots_reach_known_addresses(players: SlotTable<Session>, address: Address)
    requires
        players.wf(),
    ensures
        addresses(players.rows(), players.rows().len() as int).contains(address) <==> exists|
            h: Handle,
        | #[trigger]
            players.live(h) && players.at(h).udp_addr == Some(address),
{
    players.rows_are_live();
    let n = players.rows().len() as int;
    lemma_addresses(players.rows(), n, address);
    if addresses(players.rows(), n).contains(address) {
        let k = choose|k: int|
            0 <= k < n && (#[trigger] players.rows()[k]).1.udp_addr == Some(address);
        assert(players.live(players.rows()[k].0));
    }
    if exists|h: Handle| #[trigger] players.live(h) && players.at(h).udp_addr == Some(address) {
        let h = choose|h: Handle| #[trigger]
            players.live(h) && players.at(h).udp_addr == Some(address);
        let r = rank(players.slots, h.slot as int);
        assert(players.rows()[r].1.udp_addr == Some(address));
    }
}

proof fn lemma_addresses(rows: Seq<(Handle, Session)>, n: int, address: Address)
    requires
        0 <= n <= rows.len(),
    ensures
        addresses(rows, n).contains(address) <==> exists|k: int|
            0 <= k < n && (#[trigger] rows[k]).1.udp_addr == Some(address),
    decreases n,
{
    if n > 0 {
        lemma_addresses(rows, n - 1, address);
        let front = addresses(rows, n - 1);
        let all = addresses(rows, n);
        if front.contains(address) {
            let k = choose|k: int| 0 <= k < front.len() && front[k] == address;
            assert(all[k] == address);
        }
        if rows[n - 1].1.udp_addr == Some(address) {
            assert(all[all.len() - 1] == address);
        }
        if all.contains(address) {
            let k = choose|k: int| 0 <= k < all.len() && all[k] == address;
            if k < front.len() {
                assert(front[k] == address);
            } else {
                assert(rows[n - 1].1.udp_addr == Some(address));
            }
        }
    }
}

/// The two pictures that are kept are the latest of the three.
pub proof fn latest_are_kept(previous: WorldUpdate, current: WorldUpdate, update: WorldUpdate)
    requires
        previous.tick <= current.tick,
    ensures
        ({
            let (older, newer) = latest_two(previous, current, update);
            &&& previous.tick <= older.tick <= newer.tick
            &&& current.tick <= newer.tick
            &&& update.tick <= newer.tick
            &&& older == previous || older == current || older == update
            &&& newer == current || newer == update
            // What was dropped is not later than what was kept.
            &&& older != update && newer != update ==> update.tick <= older.tick
        }),
{
}

/// It does not matter in which order two pictures of different ticks arrive.
pub proof fn order_of_arrival_does_not_matter(
    previous: WorldUpdate,
    current: WorldUpdate,
    a: WorldUpdate,
    b: WorldUpdate,
)
    requires
        previous.tick <= current.tick,
        a.tick != b.tick,
    ensures
        ({
            let (p1, c1) = latest_two(previous, current, a);
            let (p2, c2) = latest_two(previous, current, b);
            latest_two(p1, c1, b) == latest_two(p2, c2, a)
        }),
{
}

/// Whether a player is the same but for the place, the velocity and, if the player
/// fires, what is loaded.
pub open spec fn same_player(a: Session, b: Session) -> bool {
    b == (Session {
        player: Player {
            position: b.player.position,
            velocity: b.player.velocity,
            ..a.player
        },
        fire_counter: if a.firing {
            b.fire_counter
        } else {
            a.fire_counter
        },
        ..a
    })
}

/// Whether the weapons that were loaded are those of the players who fire.
pub open spec fn only_shooters_load(
    players: SlotTable<Session>,
    loadings: Seq<Option<Loading>>,
) -> bool {
    forall|k: int|
        0 <= k < players.rows().len() ==> ((#[trigger] loadings[k]) is Some
            <==> players.rows()[k].1.firing)
}

/// Whether the players are the same, in the same slots, but for their motions and
/// what is loaded of those who fire.
pub open spec fn same_players(a: SlotTable<Session>, b: SlotTable<Session>) -> bool {
    &&& a.slots.len() == b.slots.len()
    &&& a.vacant == b.vacant
    &&& a.generation == b.generation
    &&& forall|i: int|
        0 <= i < a.slots.len() ==> match #[trigger] a.slots[i] {
            None => b.slots[i] is None,
            Some(entry) => b.slots[i] is Some && b.slots[i]->0.generation == entry.generation
                && same_player(entry.value, b.slots[i]->0.value),
        }
}

proof fn lemma_same_players_trans(
    a: SlotTable<Session>,
    b: SlotTable<Session>,
    c: SlotTable<Session>,
)
    requires
        same_players(a, b),
        same_players(b, c),
    ensures
        same_players(a, c),
{
    assert forall|i: int| 0 <= i < a.slots.len() implies match #[trigger] a.slots[i] {
        None => c.slots[i] is None,
        Some(entry) => c.slots[i] is Some && c.slots[i]->0.generation == entry.generation
            && same_player(entry.value, c.slots[i]->0.value),
    } by {
        let _ = b.slots[i];
    }
}

proof fn lemma_set_same_players(
    a: SlotTable<Session>,
    b: SlotTable<Session>,
    h: Handle,
    value: Session,
)
    requires
        same_players(a, b),
        a.live(h),
        same_player(a.at(h), value),
    ensures
        same_players(a, b.set(h, value)),
        b.live(h),
{
    let c = b.set(h, value);
    assert forall|i: int| 0 <= i < a.slots.len() implies match #[trigger] a.slots[i] {
        None => c.slots[i] is None,
        Some(entry) => c.slots[i] is Some && c.slots[i]->0.generation == entry.generation
            && same_player(entry.value, c.slots[i]->0.value),
    } by {
        let _ = b.slots[i];
    }
}

pub(crate) proof fn lemma_motions_same_players(players: SlotTable<Session>, motions: Seq<Motion>)
    requires
        players.wf(),
    ensures
        same_players(players, after_motions(players, motions)),
        after_motions(players, motions).wf(),
{
    let values = Seq::new(
        players.rows().len(),
        |k: int| moved(players.rows()[k].1, motions[k]),
    );
    players.with_values_rows(values);
    players.rows_are_live();
    let after = players.with_values(values);
    assert forall|i: int| 0 <= i < players.slots.len() implies match #[trigger] players.slots[i] {
        None => after.slots[i] is None,
        Some(entry) => after.slots[i] is Some && after.slots[i]->0.generation == entry.generation
            && same_player(entry.value, after.slots[i]->0.value),
    } by {
        if players.slots[i] is Some {
            let h = Handle { slot: i as usize, generation: players.slots[i]->0.generation };
            assert(players.live(h));
        }
    }
}

proof fn lemma_firing_same_players(
    players: SlotTable<Session>,
    bullets: SlotTable<Projectile>,
    loadings: Seq<Option<Loading>>,
    n: int,
)
    requires
        players.wf(),
        bullets.wf(),
        0 <= n <= players.rows().len(),
        only_shooters_load(players, loadings),
    ensures
        same_players(players, after_firing(players, bullets, loadings, n).players),
        after_firing(players, bullets, loadings, n).players.wf(),
        after_firing(players, bullets, loadings, n).bullets.wf(),
    decreases n,
{
    if n > 0 {
        lemma_firing_same_players(players, bullets, loadings, n - 1);
        let volley = after_firing(players, bullets, loadings, n - 1);
        let (h, session) = players.rows()[n - 1];
        players.rows_are_live();
        assert(players.live(players.rows()[n - 1].0));
        if let Some(loading) = loadings[n - 1] {
            lemma_set_same_players(players, volley.players, h, loaded(session, loading));
            volley.players.set_is_wf(h, loaded(session, loading));
            if let Some(velocity) = loading.shot {
                if !volley.bullets.full() {
                    volley.bullets.insert_is_wf(
                        numbered(shot_by(session, velocity), volley.bullets.next_handle()),
                    );
                }
            }
        }
    }
}

proof fn lemma_encounters_same_players(
    players: SlotTable<Session>,
    met: Seq<(Handle, Handle)>,
    outcomes: Seq<Option<(Motion, Motion)>>,
    n: int,
)
    requires
        players.wf(),
        0 <= n <= met.len(),
        forall|k: int|
            0 <= k < met.len() ==> players.live((#[trigger] met[k]).0) && players.live(met[k].1),
    ensures
        same_players(players, after_encounters(players, met, outcomes, n)),
    decreases n,
{
    if n > 0 {
        lemma_encounters_same_players(players, met, outcomes, n - 1);
        let now = after_encounters(players, met, outcomes, n - 1);
        let (a, b) = met[n - 1];
        assert(players.live(met[n - 1].0));
        let _ = players.slots[a.slot as int];
        let _ = players.slots[b.slot as int];
        if let Some((motion_a, motion_b)) = outcomes[n - 1] {
            lemma_set_same_players(players, now, a, moved(now.at(a), motion_a));
            let half = now.set(a, moved(now.at(a), motion_a));
            lemma_set_same_players(players, half, b, moved(now.at(b), motion_b));
        }
    }
}

/// In a step nobody joins and nobody leaves, and of each player nothing changes
/// but the place, the velocity and, if the player fires, what is loaded.
pub proof fn step_keeps_players(
    answers: Answers,
    players: SlotTable<Session>,
    bullets: SlotTable<Projectile>,
)
    requires
        players.wf(),
        bullets.wf(),
        bullets.generation + bullets.rows().len() <= u64::MAX,
        only_shooters_load(answers.pushed(players), answers.loadings),
    ensures
        same_players(players, answers.players(players, bullets)),
{
    let pushed = answers.pushed(players);
    let unspent = answers.unspent(bullets);
    lemma_motions_same_players(players, answers.motions);
    lemma_expiry(bullets, answers.expired, bullets.rows().len() as int);
    lemma_firing_same_players(pushed, unspent, answers.loadings, pushed.rows().len() as int);
    let meeting = answers.meeting(players, bullets);
    lemma_pairs_are_live(meeting);
    let met = answers.met(players, bullets);
    lemma_encounters_same_players(meeting, met, answers.outcomes, met.len() as int);
    lemma_same_players_trans(players, pushed, meeting);
    lemma_same_players_trans(players, meeting, answers.players(players, bullets));
}

/// How many of the first `n` bullets are spent.
pub open spec fn spent(expired: Seq<bool>, n: int) -> int
    decreases n,
{
    if n <= 0 {
        0
    } else {
        spent(expired, n - 1) + if expired[n - 1] {
            1int
        } else {
            0
        }
    }
}

/// Which bullets are left when those of the first `n` that are marked are gone.
pub(crate) proof fn lemma_expiry(bullets: SlotTable<Projectile>, expired: Seq<bool>, n: int)
    requires
        bullets.wf(),
        0 <= n <= bullets.rows().len(),
        bullets.generation + n <= u64::MAX,
    ensures
        after_expiry(bullets, expired, n).wf(),
        after_expiry(bullets, expired, n).slots.len() == bullets.slots.len(),
        after_expiry(bullets, expired, n).generation == bullets.generation + spent(expired, n),
        after_expiry(bullets, expired, n).rows().len() == bullets.rows().len() - spent(expired, n),
        0 <= spent(expired, n) <= n,
        forall|h: Handle| #[trigger]
            after_expiry(bullets, expired, n).live(h) <==> bullets.live(h) && !(rank(
                bullets.slots,
                h.slot as int,
            ) < n && expired[rank(bullets.slots, h.slot as int)]),
        forall|h: Handle| #[trigger]
            after_expiry(bullets, expired, n).live(h) ==> after_expiry(bullets, expired, n).at(h)
                == bullets.at(h),
    decreases n,
{
    bullets.rows_are_live();
    if n > 0 {
        lemma_expiry(bullets, expired, n - 1);
        let before = after_expiry(bullets, expired, n - 1);
        let after = after_expiry(bullets, expired, n);
        let gone = bullets.rows()[n - 1].0;
        assert(bullets.live(gone));
        lemma_row_at(bullets, n - 1, gone);
        if expired[n - 1] {
            assert(before.live(gone));
            before.remove_is_wf(gone);
        }
        assert forall|h: Handle| #[trigger] after.live(h) <==> bullets.live(h) && !(rank(
            bullets.slots,
            h.slot as int,
        ) < n && expired[rank(bullets.slots, h.slot as int)]) by {
            let _ = before.live(h);
            if bullets.live(h) && rank(bullets.slots, h.slot as int) == n - 1 {
                assert(h == gone);
            }
        }
        assert forall|h: Handle| #[trigger] after.live(h) implies after.at(h) == bullets.at(h) by {
            assert(before.live(h));
        }
    }
}

/// The spent bullets go, and only those; the others stay as they are, under their
/// handles.
pub proof fn spent_bullets_go(answers: Answers, bullets: SlotTable<Projectile>, k: int)
    requires
        bullets.wf(),
        bullets.generation + bullets.rows().len() <= u64::MAX,
        0 <= k < bullets.rows().len(),
    ensures
        ({
            let (h, projectile) = bullets.rows()[k];
            answers.unspent(bullets).get(h) == if answers.expired[k] {
                None
            } else {
                Some(projectile)
            }
        }),
        forall|h: Handle| #[trigger] answers.unspent(bullets).live(h) ==> bullets.live(h),
{
    bullets.rows_are_live();
    lemma_expiry(bullets, answers.expired, bullets.rows().len() as int);
    let h = bullets.rows()[k].0;
    assert(bullets.live(h));
    lemma_row_at(bullets, k, h);
    let _ = answers.unspent(bullets).live(h);
}

/// How many shots the first `n` players would fire, if there were room for all.
pub open spec fn shots(loadings: Seq<Option<Loading>>, n: int) -> int
    decreases n,
{
    if n <= 0 {
        0
    } else {
        shots(loadings, n - 1) + match loadings[n - 1] {
            Some(Loading { shot: Some(_), .. }) => 1int,
            _ => 0,
        }
    }
}

/// `n`, but no more than `limit`.
pub open spec fn at_most(limit: int, n: int) -> int {
    if n <= limit {
        n
    } else {
        limit
    }
}

/// Whether a bullet was fired by the k-th player, from where that player stands.
pub open spec fn fired_by(
    players: SlotTable<Session>,
    loadings: Seq<Option<Loading>>,
    k: int,
    projectile: Projectile,
    h: Handle,
) -> bool {
    match loadings[k] {
        None => false,
        Some(loading) => match loading.shot {
            None => false,
            Some(velocity) => projectile == numbered(
                shot_by(players.rows()[k].1, velocity),
                h,
            ),
        },
    }
}

/// Whether a bullet was fired by one of the first `n` players.
pub open spec fn fired_by_one(
    players: SlotTable<Session>,
    loadings: Seq<Option<Loading>>,
    n: int,
    projectile: Projectile,
    h: Handle,
) -> bool {
    exists|k: int| 0 <= k < n && #[trigger] fired_by(players, loadings, k, projectile, h)
}

pub(crate) proof fn lemma_volley(
    players: SlotTable<Session>,
    bullets: SlotTable<Projectile>,
    loadings: Seq<Option<Loading>>,
    n: int,
)
    requires
        players.wf(),
        bullets.wf(),
        0 <= n <= players.rows().len(),
    ensures
        ({
            let volley = after_firing(players, bullets, loadings, n);
            &&& volley.bullets.wf()
            &&& volley.bullets.slots.len() == bullets.slots.len()
            &&& volley.bullets.rows().len() == at_most(
                bullets.slots.len() as int,
                bullets.rows().len() + shots(loadings, n),
            )
            &&& volley.blocked <==> bullets.rows().len() + shots(loadings, n)
                > bullets.slots.len()
            &&& forall|h: Handle| #[trigger]
                bullets.live(h) ==> volley.bullets.live(h) && volley.bullets.at(h) == bullets.at(h)
            &&& forall|h: Handle| #[trigger]
                volley.bullets.live(h) ==> bullets.live(h) || fired_by_one(
                    players,
                    loadings,
                    n,
                    volley.bullets.at(h),
                    h,
                )
        }),
    decreases n,
{
    if n > 0 {
        lemma_volley(players, bullets, loadings, n - 1);
        let before = after_firing(players, bullets, loadings, n - 1);
        let after = after_firing(players, bullets, loadings, n);
        let session = players.rows()[n - 1].1;
        let fresh = before.bullets.next_handle();
        if before.bullets != after.bullets {
            let velocity = loadings[n - 1]->0.shot->0;
            let shot = numbered(shot_by(session, velocity), fresh);
            before.bullets.insert_is_wf(shot);
            assert forall|h: Handle| #[trigger] bullets.live(h) implies after.bullets.live(h)
                && after.bullets.at(h) == bullets.at(h) by {
                assert(before.bullets.live(h));
                assert(h.slot != fresh.slot);
            }
        }
        assert forall|h: Handle| #[trigger] after.bullets.live(h) implies bullets.live(h)
            || fired_by_one(players, loadings, n, after.bullets.at(h), h) by {
            if before.bullets.live(h) {
                if !bullets.live(h) {
                    let k = choose|k: int|
                        0 <= k < n - 1 && #[trigger] fired_by(
                            players,
                            loadings,
                            k,
                            before.bullets.at(h),
                            h,
                        );
                    assert(fired_by(players, loadings, k, after.bullets.at(h), h));
                    if before.bullets != after.bullets {
                        assert(h.slot != fresh.slot);
                    }
                }
            } else {
                assert(h == fresh);
                assert(fired_by(players, loadings, n - 1, after.bullets.at(h), h));
            }
        }
    }
}

/// Every shot adds one bullet, as long as there is room; a shot is blocked just
/// when there is room for fewer; a new bullet has come from a player who fires; and
/// no bullet that was in flight is touched by the firing.
pub proof fn bullets_come_from_shooters(
    answers: Answers,
    players: SlotTable<Session>,
    bullets: SlotTable<Projectile>,
)
    requires
        players.wf(),
        bullets.wf(),
        bullets.generation + bullets.rows().len() <= u64::MAX,
    ensures
        ({
            let pushed = answers.pushed(players);
            let n = pushed.rows().len() as int;
            let unspent = answers.unspent(bullets);
            let volley = answers.volley(players, bullets);
            &&& volley.bullets.rows().len() == at_most(
                bullets.slots.len() as int,
                unspent.rows().len() + shots(answers.loadings, n),
            )
            &&& volley.blocked <==> unspent.rows().len() + shots(answers.loadings, n)
                > bullets.slots.len()
            &&& forall|h: Handle| #[trigger]
                unspent.live(h) ==> volley.bullets.get(h) == Some(unspent.at(h))
            &&& forall|h: Handle| #[trigger]
                volley.bullets.live(h) ==> unspent.live(h) || fired_by_one(
                    pushed,
                    answers.loadings,
                    n,
                    volley.bullets.at(h),
                    h,
                )
        }),
{
    lemma_motions_same_players(players, answers.motions);
    lemma_expiry(bullets, answers.expired, bullets.rows().len() as int);
    lemma_volley(
        answers.pushed(players),
        answers.unspent(bullets),
        answers.loadings,
        answers.pushed(players).rows().len() as int,
    );
}

/// A bullet in flight keeps its handle, its id, its owner, its angle, its radius
/// and its velocity.
pub proof fn flying_changes_place_and_time(
    answers: Answers,
    players: SlotTable<Session>,
    bullets: SlotTable<Projectile>,
    h: Handle,
)
    requires
        players.wf(),
        bullets.wf(),
        bullets.generation + bullets.rows().len() <= u64::MAX,
    ensures
        ({
            let start = answers.volley(players, bullets).bullets;
            let end = answers.bullets(players, bullets);
            &&& end.live(h) <==> start.live(h)
            &&& start.live(h) ==> end.at(h) == (Projectile {
                bullet: Bullet {
                    position: end.at(h).bullet.position,
                    ..start.at(h).bullet
                },
                lifetime: end.at(h).lifetime,
                ..start.at(h)
            })
        }),
{
    lemma_motions_same_players(players, answers.motions);
    lemma_expiry(bullets, answers.expired, bullets.rows().len() as int);
    lemma_volley(
        answers.pushed(players),
        answers.unspent(bullets),
        answers.loadings,
        answers.pushed(players).rows().len() as int,
    );
    let start = answers.volley(players, bullets).bullets;
    let values = Seq::new(
        start.rows().len(),
        |k: int| flown(start.rows()[k].1, answers.flights[k]),
    );
    start.with_values_rows(values);
    start.rows_are_live();
}

/// A step takes the spent bullets away. Every other bullet has flown at its end, under
/// the same handle, in the way that was answered for this very bullet.
pub proof fn bullets_fly_or_go(
    answers: Answers,
    players: SlotTable<Session>,
    bullets: SlotTable<Projectile>,
    k: int,
)
    requires
        players.wf(),
        bullets.wf(),
        bullets.generation + bullets.rows().len() <= u64::MAX,
        0 <= k < bullets.rows().len(),
    ensures
        ({
            let (h, projectile) = bullets.rows()[k];
            let flying = answers.volley(players, bullets).bullets;
            let r = rank(flying.slots, h.slot as int);
            &&& answers.bullets(players, bullets).get(h) == if answers.expired[k] {
                None
            } else {
                Some(flown(projectile, answers.flights[r]))
            }
            &&& !answers.expired[k] ==> 0 <= r < flying.rows().len() && flying.rows()[r] == (
                h,
                projectile,
            )
        }),
{
    let n = bullets.rows().len() as int;
    let pushed = answers.pushed(players);
    let unspent = answers.unspent(bullets);
    let m = pushed.rows().len() as int;
    let h = bullets.rows()[k].0;
    bullets.rows_are_live();
    assert(bullets.live(bullets.rows()[k].0));
    spent_bullets_go(answers, bullets, k);
    lemma_motions_same_players(players, answers.motions);
    lemma_expiry(bullets, answers.expired, n);
    lemma_volley(pushed, unspent, answers.loadings, m);
    flying_changes_place_and_time(answers, players, bullets, h);
    let flying = answers.volley(players, bullets).bullets;
    flying.rows_are_live();
    if answers.expired[k] {
        lemma_spent_positive(answers.expired, n, k);
        lemma_firing_keeps_retired(pushed, unspent, answers.loadings, m, h);
    } else {
        assert(unspent.live(h));
    }
}

/// How many bullets there are after a step: those that were not spent, and one for
/// each shot, but no more than there is room for. Each was there before or has just
/// been fired, and has flown in the way that was answered for it.
pub proof fn bullets_are_counted(
    answers: Answers,
    players: SlotTable<Session>,
    bullets: SlotTable<Projectile>,
)
    requires
        players.wf(),
        bullets.wf(),
        bullets.generation + bullets.rows().len() <= u64::MAX,
    ensures
        ({
            let pushed = answers.pushed(players);
            let n = bullets.rows().len() as int;
            let m = pushed.rows().len() as int;
            let flying = answers.volley(players, bullets).bullets;
            let end = answers.bullets(players, bullets);
            &&& end.slots.len() == bullets.slots.len()
            &&& end.rows().len() == at_most(
                bullets.slots.len() as int,
                n - spent(answers.expired, n) + shots(answers.loadings, m),
            )
            &&& forall|h: Handle| #[trigger]
                end.live(h) ==> end.at(h) == flown(
                    flying.at(h),
                    answers.flights[rank(flying.slots, h.slot as int)],
                ) && (answers.unspent(bullets).live(h) || fired_by_one(
                    pushed,
                    answers.loadings,
                    m,
                    flying.at(h),
                    h,
                ))
        }),
{
    let pushed = answers.pushed(players);
    let unspent = answers.unspent(bullets);
    let end = answers.bullets(players, bullets);
    lemma_motions_same_players(players, answers.motions);
    lemma_expiry(bullets, answers.expired, bullets.rows().len() as int);
    lemma_volley(pushed, unspent, answers.loadings, pushed.rows().len() as int);
    let flying = answers.volley(players, bullets).bullets;
    flying.with_values_rows(
        Seq::new(flying.rows().len(), |k: int| flown(flying.rows()[k].1, answers.flights[k])),
    );
    flying.rows_are_live();
    assert forall|h: Handle| #[trigger] end.live(h) implies flying.live(h) by {}
}

proof fn lemma_spent_positive(expired: Seq<bool>, n: int, k: int)
    requires
        0 <= k < n,
        expired[k],
    ensures
        spent(expired, n) > 0,
    decreases n,
{
    if k < n - 1 {
        lemma_spent_positive(expired, n - 1, k);
    } else {
        lemma_spent_not_negative(expired, n - 1);
    }
}

proof fn lemma_spent_not_negative(expired: Seq<bool>, n: int)
    ensures
        spent(expired, n) >= 0,
    decreases n,
{
    if n > 0 {
        lemma_spent_not_negative(expired, n - 1);
    }
}

/// What a player has loaded after the turn to fire: what the weapon was loaded with,
/// if the player fires and no shot was blocked before, and else what was loaded
/// already.
pub open spec fn counter_after_turn(
    counter: Scalar,
    loading: Option<Loading>,
    blocked: bool,
) -> Scalar {
    match loading {
        None => counter,
        Some(loading) => if blocked {
            counter
        } else {
            loading.fire_counter
        },
    }
}

proof fn lemma_firing_counters(
    players: SlotTable<Session>,
    bullets: SlotTable<Projectile>,
    loadings: Seq<Option<Loading>>,
    n: int,
    k: int,
)
    requires
        players.wf(),
        0 <= n <= players.rows().len(),
        0 <= k < players.rows().len(),
    ensures
        ({
            let (h, session) = players.rows()[k];
            let volley = after_firing(players, bullets, loadings, n);
            &&& volley.players.live(h)
            &&& volley.players.at(h).fire_counter == if k < n {
                counter_after_turn(
                    session.fire_counter,
                    loadings[k],
                    after_firing(players, bullets, loadings, k).blocked,
                )
            } else {
                session.fire_counter
            }
            &&& k < n && after_firing(players, bullets, loadings, k).blocked ==> volley.blocked
        }),
    decreases n,
{
    players.rows_are_live();
    assert(players.live(players.rows()[k].0));
    if n > 0 {
        lemma_firing_counters(players, bullets, loadings, n - 1, k);
        lemma_firing_counters(players, bullets, loadings, n - 1, n - 1);
        assert(players.live(players.rows()[n - 1].0));
        if k < n - 1 {
            assert(players.rows()[k].0.slot < players.rows()[n - 1].0.slot);
        } else if n - 1 < k {
            assert(players.rows()[n - 1].0.slot < players.rows()[k].0.slot);
        }
    }
}

pub(crate) proof fn lemma_encounters_keep_counters(
    players: SlotTable<Session>,
    met: Seq<(Handle, Handle)>,
    outcomes: Seq<Option<(Motion, Motion)>>,
    n: int,
)
    requires
        0 <= n <= met.len(),
        forall|k: int|
            0 <= k < met.len() ==> players.live((#[trigger] met[k]).0) && players.live(met[k].1),
    ensures
        ({
            let after = after_encounters(players, met, outcomes, n);
            &&& forall|h: Handle| #[trigger] after.live(h) <==> players.live(h)
            &&& forall|h: Handle| #[trigger]
                after.live(h) ==> after.at(h).fire_counter == players.at(h).fire_counter
        }),
    decreases n,
{
    if n > 0 {
        lemma_encounters_keep_counters(players, met, outcomes, n - 1);
        let now = after_encounters(players, met, outcomes, n - 1);
        let after = after_encounters(players, met, outcomes, n);
        assert(players.live(met[n - 1].0));
        assert(now.live(met[n - 1].0) && now.live(met[n - 1].1));
        assert forall|h: Handle| #[trigger] after.live(h) <==> players.live(h) by {
            let _ = now.live(h);
        }
        assert forall|h: Handle| #[trigger] after.live(h) implies after.at(h).fire_counter
            == players.at(h).fire_counter by {
            assert(now.live(h));
        }
    }
}

/// What is loaded after a step. Who does not fire keeps what was loaded, and so does
/// everybody whose turn comes after a shot that found no room. All others get what
/// their weapons were loaded with; with room for all shots, that is everybody who
/// fires.
pub proof fn weapons_are_loaded_in_turn(
    answers: Answers,
    players: SlotTable<Session>,
    bullets: SlotTable<Projectile>,
    k: int,
)
    requires
        players.wf(),
        0 <= k < players.rows().len(),
    ensures
        ({
            let (h, session) = players.rows()[k];
            let end = answers.players(players, bullets);
            let unspent = answers.unspent(bullets);
            &&& end.live(h)
            &&& end.at(h).fire_counter == counter_after_turn(
                session.fire_counter,
                answers.loadings[k],
                after_firing(answers.pushed(players), unspent, answers.loadings, k).blocked,
            )
            &&& !answers.volley(players, bullets).blocked ==> end.at(h).fire_counter
                == counter_after_turn(session.fire_counter, answers.loadings[k], false)
        }),
{
    let pushed = answers.pushed(players);
    let unspent = answers.unspent(bullets);
    let meeting = answers.meeting(players, bullets);
    let met = answers.met(players, bullets);
    let m = pushed.rows().len() as int;
    players.with_values_rows(
        Seq::new(players.rows().len(), |j: int| moved(players.rows()[j].1, answers.motions[j])),
    );
    lemma_firing_counters(pushed, unspent, answers.loadings, m, k);
    lemma_firing_moves_nobody(pushed, unspent, answers.loadings, m);
    lemma_pairs_are_live(meeting);
    lemma_encounters_keep_counters(meeting, met, answers.outcomes, met.len() as int);
    assert(meeting.live(players.rows()[k].0));
}

/// Whether loading a weapon keeps `p` true of what is loaded.
pub open spec fn load_keeps<L: Fn(Session) -> Loading>(
    load: L,
    p: spec_fn(Scalar) -> bool,
) -> bool {
    forall|s: Session, l: Loading|
        p(s.fire_counter) && #[trigger] call_ensures(load, (s,), l) ==> p(l.fire_counter)
}

/// Whether `p` holds of what each player has loaded.
pub open spec fn all_loaded(players: SlotTable<Session>, p: spec_fn(Scalar) -> bool) -> bool {
    forall|h: Handle| #[trigger] players.live(h) ==> p(players.at(h).fire_counter)
}

/// What loading a weapon keeps true of what is loaded, such as a range, a step keeps
/// true of what all players have loaded.
pub proof fn step_keeps_what_loading_keeps<L: Fn(Session) -> Loading>(
    load: L,
    p: spec_fn(Scalar) -> bool,
    answers: Answers,
    players: SlotTable<Session>,
    bullets: SlotTable<Projectile>,
)
    requires
        players.wf(),
        load_keeps(load, p),
        answers_loadings(load, answers.pushed(players), answers.loadings),
        all_loaded(players, p),
    ensures
        all_loaded(answers.players(players, bullets), p),
{
    let pushed = answers.pushed(players);
    let end = answers.players(players, bullets);
    let meeting = answers.meeting(players, bullets);
    let met = answers.met(players, bullets);
    let m = pushed.rows().len() as int;
    players.rows_are_live();
    players.with_values_rows(
        Seq::new(players.rows().len(), |j: int| moved(players.rows()[j].1, answers.motions[j])),
    );
    lemma_firing_moves_nobody(pushed, answers.unspent(bullets), answers.loadings, m);
    lemma_pairs_are_live(meeting);
    lemma_encounters_keep_counters(meeting, met, answers.outcomes, met.len() as int);
    assert forall|h: Handle| #[trigger] end.live(h) implies p(end.at(h).fire_counter) by {
        assert(meeting.live(h));
        let _ = pushed.slots[h.slot as int];
        assert(pushed.live(h));
        assert(players.live(h));
        let k = rank(players.slots, h.slot as int);
        weapons_are_loaded_in_turn(answers, players, bullets, k);
        assert(p(pushed.rows()[k].1.fire_counter));
        if let Some(loading) = answers.loadings[k] {
            assert(call_ensures(load, (pushed.rows()[k].1,), loading));
        }
    }
}

/// Between two steps, what holds of nothing loaded and of what all players have
/// loaded goes on to hold, whoever joins, leaves, is recognised or steers.
pub proof fn joining_and_steering_keep_what_is_loaded(
    players: SlotTable<Session>,
    p: spec_fn(Scalar) -> bool,
    id: Id,
    random_bytes: [u8; NUM_RANDOM_BYTES],
    leaving: Handle,
    bytes: Seq<u8>,
    from: Address,
    inputs: Seq<PlayerInput>,
)
    requires
        players.wf(),
        p(ZERO),
        all_loaded(players, p),
    ensures
        !players.full() ==> all_loaded(players.insert(new_session(id, random_bytes)), p),
        players.live(leaving) ==> all_loaded(players.remove(leaving), p),
        all_loaded(after_binding(players, bytes, from), p),
        all_loaded(after_inputs(players, from, inputs), p),
{
    players.rows_are_live();
    lemma_found(players.rows(), has_bytes(bytes));
    lemma_found(players.rows(), has_address(from));
    if !players.full() {
        let joined = players.insert(new_session(id, random_bytes));
        assert forall|h: Handle| #[trigger] joined.live(h) implies p(joined.at(h).fire_counter) by {
            let _ = players.live(h);
        }
    }
    if players.live(leaving) {
        let left = players.remove(leaving);
        assert forall|h: Handle| #[trigger] left.live(h) implies p(left.at(h).fire_counter) by {
            assert(players.live(h));
        }
    }
    let k = first_where(players.rows(), has_bytes(bytes));
    if k < players.rows().len() {
        assert(players.live(players.rows()[k].0));
    }
    let bound = after_binding(players, bytes, from);
    assert forall|h: Handle| #[trigger] bound.live(h) implies p(bound.at(h).fire_counter) by {
        assert(players.live(h));
    }
    let j = first_where(players.rows(), has_address(from));
    if j < players.rows().len() {
        assert(players.live(players.rows()[j].0));
    }
    let steered = after_inputs(players, from, inputs);
    assert forall|h: Handle| #[trigger] steered.live(h) implies p(steered.at(h).fire_counter) by {
        assert(players.live(h));
    }
}

/// Every two players meet exactly once in a step.
pub proof fn every_two_players_meet_once(players: SlotTable<Session>, a: Handle, b: Handle)
    requires
        players.wf(),
    ensures
        all_pairs(players).contains((a, b)) <==> players.live(a) && players.live(b) && a.slot
            < b.slot,
        all_pairs(players).no_duplicates(),
{
    let hs = handles(players.rows());
    let n = players.rows().len() as int;
    players.rows_are_live();
    lemma_pairs_are_live(players);
    if players.live(a) && players.live(b) && a.slot < b.slot {
        let i = rank(players.slots, a.slot as int);
        let j = rank(players.slots, b.slot as int);
        assert(i < j) by {
            if j < i {
                assert(players.rows()[j].0.slot < players.rows()[i].0.slot);
            }
        }
        lemma_pair_is_listed(hs, n, i, j);
    }
    assert forall|x: int, y: int| 0 <= x < y < hs.len() implies hs[x] != hs[y] by {
        assert(players.rows()[x].0.slot < players.rows()[y].0.slot);
    }
    lemma_pairs_distinct(hs, n);
}

proof fn lemma_pair_is_listed(hs: Seq<Handle>, n: int, i: int, j: int)
    requires
        0 <= i < n <= hs.len(),
        i < j < hs.len(),
    ensures
        pairs(hs, n).contains((hs[i], hs[j])),
    decreases n,
{
    let front = pairs(hs, n - 1);
    if i < n - 1 {
        lemma_pair_is_listed(hs, n - 1, i, j);
        let k = choose|k: int| 0 <= k < front.len() && front[k] == (hs[i], hs[j]);
        assert(pairs(hs, n)[k] == (hs[i], hs[j]));
    } else {
        assert(pairs(hs, n)[front.len() + (j - i - 1)] == (hs[i], hs[j]));
    }
}

proof fn lemma_pairs_distinct(hs: Seq<Handle>, n: int)
    requires
        0 <= n <= hs.len(),
        forall|x: int, y: int| 0 <= x < y < hs.len() ==> hs[x] != hs[y],
    ensures
        pairs(hs, n).no_duplicates(),
    decreases n,
{
    if n > 0 {
        lemma_pairs_distinct(hs, n - 1);
        lemma_pairs(hs, n - 1);
        let front = pairs(hs, n - 1);
        let back = pairs_with(hs, n - 1, hs.len() as int);
        let all = pairs(hs, n);
        assert forall|x: int, y: int| 0 <= x < all.len() && 0 <= y < all.len() && x != y implies
            all[x] != all[y] by {
            if x < front.len() {
                assert(all[x] == front[x]);
            } else {
                assert(all[x] == back[x - front.len()]);
            }
            if y < front.len() {
                assert(all[y] == front[y]);
            } else {
                assert(all[y] == back[y - front.len()]);
            }
        }
    }
}

/// Whether one world can come from another by something that happens to it: a
/// player joins or is turned away, a player leaves, a datagram comes, or time goes
/// on.
pub open spec fn evolves(before: World, after: World) -> bool {
    ||| exists|
        random_bytes: [u8; NUM_RANDOM_BYTES],
        tick_rate: u32,
        tick_zero: Timestamp,
        result: Option<Welcome>,
    |
        accepted(before, after, random_bytes, tick_rate, tick_zero, result)
    ||| exists|h: Handle|
        #![trigger before.players().live(h)]
        before.players().live(h) && after.players() == before.players().remove(h)
            && after.bullets() == before.bullets()
    ||| exists|bytes: Seq<u8>, from: Address|
        after.players() == #[trigger] after_binding(before.players(), bytes, from)
            && after.bullets() == before.bullets()
    ||| exists|from: Address, inputs: Seq<PlayerInput>|
        after.players() == #[trigger] after_inputs(before.players(), from, inputs)
            && after.bullets() == before.bullets()
    ||| exists|answers: Answers, blocked: bool| #[trigger]
        answers.lead(before, after, blocked) && only_shooters_load(
            answers.pushed(before.players()),
            answers.loadings,
        )
}

proof fn lemma_firing_keeps_retired(
    players: SlotTable<Session>,
    bullets: SlotTable<Projectile>,
    loadings: Seq<Option<Loading>>,
    n: int,
    h: Handle,
)
    requires
        players.wf(),
        bullets.wf(),
        0 <= n <= players.rows().len(),
        retired(bullets, h),
    ensures
        retired(after_firing(players, bullets, loadings, n).bullets, h),
    decreases n,
{
    if n > 0 {
        lemma_firing_keeps_retired(players, bullets, loadings, n - 1, h);
        lemma_volley(players, bullets, loadings, n - 1);
    }
}

proof fn lemma_expiry_keeps_retired(
    bullets: SlotTable<Projectile>,
    expired: Seq<bool>,
    n: int,
    h: Handle,
)
    requires
        bullets.wf(),
        0 <= n <= bullets.rows().len(),
        bullets.generation + n <= u64::MAX,
        retired(bullets, h),
    ensures
        retired(after_expiry(bullets, expired, n), h),
    decreases n,
{
    if n > 0 {
        lemma_expiry_keeps_retired(bullets, expired, n - 1, h);
        lemma_expiry(bullets, expired, n - 1);
        bullets.rows_are_live();
        let gone = bullets.rows()[n - 1].0;
        assert(bullets.live(gone));
        lemma_row_at(bullets, n - 1, gone);
        assert(after_expiry(bullets, expired, n - 1).live(gone));
    }
}

/// Whatever happens to the world, the handle of a player who has left names nobody
/// ever again, and that of a bullet that is gone names no bullet.
pub proof fn handles_are_never_reused(before: World, after: World, player: Handle, bullet: Handle)
    requires
        before.wf(),
        before.bullets().generation + before.bullets().rows().len() <= u64::MAX,
        evolves(before, after),
    ensures
        retired(before.players(), player) ==> retired(after.players(), player),
        retired(before.bullets(), bullet) ==> retired(after.bullets(), bullet),
{
    let players = before.players();
    let bullets = before.bullets();
    players.rows_are_live();
    if exists|answers: Answers, blocked: bool| #[trigger]
        answers.lead(before, after, blocked) && only_shooters_load(
            answers.pushed(players),
            answers.loadings,
        ) {
        let (answers, blocked) = choose|answers: Answers, blocked: bool| #[trigger]
            answers.lead(before, after, blocked) && only_shooters_load(
                answers.pushed(players),
                answers.loadings,
            );
        step_keeps_players(answers, players, bullets);
        let _ = players.slots[player.slot as int];
        flying_changes_place_and_time(answers, players, bullets, bullet);
        if retired(bullets, bullet) {
            lemma_motions_same_players(players, answers.motions);
            lemma_expiry(bullets, answers.expired, bullets.rows().len() as int);
            lemma_expiry_keeps_retired(
                bullets,
                answers.expired,
                bullets.rows().len() as int,
                bullet,
            );
            lemma_firing_keeps_retired(
                answers.pushed(players),
                answers.unspent(bullets),
                answers.loadings,
                answers.pushed(players).rows().len() as int,
                bullet,
            );
        }
    } else if exists|bytes: Seq<u8>, from: Address|
        after.players() == #[trigger] after_binding(players, bytes, from) && after.bullets()
            == bullets {
        let (bytes, from) = choose|bytes: Seq<u8>, from: Address|
            after.players() == #[trigger] after_binding(players, bytes, from) && after.bullets()
                == bullets;
        lemma_found(players.rows(), has_bytes(bytes));
        let k = first_where(players.rows(), has_bytes(bytes));
        if k < players.rows().len() {
            assert(players.live(players.rows()[k].0));
        }
    } else if exists|from: Address, inputs: Seq<PlayerInput>|
        after.players() == #[trigger] after_inputs(players, from, inputs) && after.bullets()
            == bullets {
        let (from, inputs) = choose|from: Address, inputs: Seq<PlayerInput>|
            after.players() == #[trigger] after_inputs(players, from, inputs) && after.bullets()
                == bullets;
        lemma_found(players.rows(), has_address(from));
        let k = first_where(players.rows(), has_address(from));
        if k < players.rows().len() {
            assert(players.live(players.rows()[k].0));
        }
    }
}

/// Whatever happens to the world, it has room for as many players and bullets as
/// before.
pub proof fn room_stays_the_same(before: World, after: World)
    requires
        before.wf(),
        before.bullets().generation + before.bullets().rows().len() <= u64::MAX,
        evolves(before, after),
    ensures
        after.players().slots.len() == before.players().slots.len(),
        after.bullets().slots.len() == before.bullets().slots.len(),
{
    let players = before.players();
    let bullets = before.bullets();
    if exists|answers: Answers, blocked: bool| #[trigger]
        answers.lead(before, after, blocked) && only_shooters_load(
            answers.pushed(players),
            answers.loadings,
        ) {
        let (answers, blocked) = choose|answers: Answers, blocked: bool| #[trigger]
            answers.lead(before, after, blocked) && only_shooters_load(
                answers.pushed(players),
                answers.loadings,
            );
        step_keeps_players(answers, players, bullets);
        bullets_are_counted(answers, players, bullets);
    }
    players.rows_are_live();
    assert forall|bytes: Seq<u8>, from: Address| #[trigger]
        after_binding(players, bytes, from).slots.len() == players.slots.len() by {
        lemma_found(players.rows(), has_bytes(bytes));
        let k = first_where(players.rows(), has_bytes(bytes));
        if k < players.rows().len() {
            assert(players.live(players.rows()[k].0));
        }
    }
    assert forall|from: Address, inputs: Seq<PlayerInput>| #[trigger]
        after_inputs(players, from, inputs).slots.len() == players.slots.len() by {
        lemma_found(players.rows(), has_address(from));
        let k = first_where(players.rows(), has_address(from));
        if k < players.rows().len() {
            assert(players.live(players.rows()[k].0));
        }
    }
}

/// Whether two players are alike in what moving takes: the place, the velocity, the
/// radius and the push.
pub open spec fn moves_alike(a: Session, b: Session) -> bool {
    &&& a.player.position == b.player.position
    &&& a.player.velocity == b.player.velocity
    &&& a.player.radius == b.player.radius
    &&& a.input == b.input
}

/// Whether two tables have the same handles, and under each of them players who
/// move alike.
pub open spec fn all_move_alike(a: SlotTable<Session>, b: SlotTable<Session>) -> bool {
    &&& a.slots.len() == b.slots.len()
    &&& forall|i: int|
        0 <= i < a.slots.len() ==> match #[trigger] a.slots[i] {
            None => b.slots[i] is None,
            Some(entry) => b.slots[i] is Some && b.slots[i]->0.generation == entry.generation
                && moves_alike(entry.value, b.slots[i]->0.value),
        }
}

/// Whether the answers of `impulse` depend on nothing but what moving takes.
pub open spec fn impulse_sees_motion_only<I: Fn(Session) -> Motion>(impulse: I) -> bool {
    forall|s: Session, t: Session, m: Motion, o: Motion|
        moves_alike(s, t) && #[trigger] call_ensures(impulse, (s,), m) && #[trigger] call_ensures(
            impulse,
            (t,),
            o,
        ) ==> m == o
}

/// Whether the answers of `collide` depend on nothing but what moving takes.
pub open spec fn collide_sees_motion_only<C: Fn(Session, Session) -> Option<(Motion, Motion)>>(
    collide: C,
) -> bool {
    forall|
        a: Session,
        b: Session,
        c: Session,
        d: Session,
        m: Option<(Motion, Motion)>,
        o: Option<(Motion, Motion)>,
    |
        moves_alike(a, c) && moves_alike(b, d) && #[trigger] call_ensures(collide, (a, b), m)
            && #[trigger] call_ensures(collide, (c, d), o) ==> m == o
}

pub(crate) proof fn lemma_alike_rows(a: SlotTable<Session>, b: SlotTable<Session>, n: int)
    requires
        all_move_alike(a, b),
        0 <= n <= a.slots.len(),
    ensures
        rank(a.slots, n) == rank(b.slots, n),
        forall|k: int|
            0 <= k < rank(a.slots, n) ==> (#[trigger] rows_of(a.slots, n)[k]).0 == rows_of(
                b.slots,
                n,
            )[k].0 && moves_alike(rows_of(a.slots, n)[k].1, rows_of(b.slots, n)[k].1),
    decreases n,
{
    if n > 0 {
        lemma_alike_rows(a, b, n - 1);
        let _ = a.slots[n - 1];
    }
}

proof fn lemma_alike_trans(a: SlotTable<Session>, b: SlotTable<Session>, c: SlotTable<Session>)
    requires
        all_move_alike(a, b),
        all_move_alike(b, c),
    ensures
        all_move_alike(a, c),
{
    assert forall|i: int| 0 <= i < a.slots.len() implies match #[trigger] a.slots[i] {
        None => c.slots[i] is None,
        Some(entry) => c.slots[i] is Some && c.slots[i]->0.generation == entry.generation
            && moves_alike(entry.value, c.slots[i]->0.value),
    } by {
        let _ = b.slots[i];
    }
}

proof fn lemma_alike_symm(a: SlotTable<Session>, b: SlotTable<Session>)
    requires
        all_move_alike(a, b),
    ensures
        all_move_alike(b, a),
{
    assert forall|i: int| 0 <= i < b.slots.len() implies match #[trigger] b.slots[i] {
        None => a.slots[i] is None,
        Some(entry) => a.slots[i] is Some && a.slots[i]->0.generation == entry.generation
            && moves_alike(entry.value, a.slots[i]->0.value),
    } by {
        let _ = a.slots[i];
    }
}

proof fn lemma_alike_motions(
    a: SlotTable<Session>,
    b: SlotTable<Session>,
    motions_a: Seq<Motion>,
    motions_b: Seq<Motion>,
)
    requires
        a.slots.len() <= usize::MAX,
        all_move_alike(a, b),
        forall|k: int| 0 <= k < a.rows().len() ==> #[trigger] motions_a[k] == motions_b[k],
    ensures
        all_move_alike(after_motions(a, motions_a), after_motions(b, motions_b)),
{
    let x = after_motions(a, motions_a);
    let y = after_motions(b, motions_b);
    let n = a.slots.len() as int;
    lemma_alike_rows(a, b, n);
    assert forall|i: int| 0 <= i < x.slots.len() implies match #[trigger] x.slots[i] {
        None => y.slots[i] is None,
        Some(entry) => y.slots[i] is Some && y.slots[i]->0.generation == entry.generation
            && moves_alike(entry.value, y.slots[i]->0.value),
    } by {
        if a.slots[i] is Some {
            lemma_alike_rows(a, b, i);
            lemma_rows_complete(a.slots, n, i);
            lemma_rows_complete(b.slots, n, i);
            assert(motions_a[rank(a.slots, i)] == motions_b[rank(b.slots, i)]);
        }
    }
}

pub(crate) proof fn lemma_firing_moves_nobody(
    players: SlotTable<Session>,
    bullets: SlotTable<Projectile>,
    loadings: Seq<Option<Loading>>,
    n: int,
)
    requires
        players.slots.len() <= usize::MAX,
        0 <= n <= players.rows().len(),
    ensures
        all_move_alike(players, after_firing(players, bullets, loadings, n).players),
    decreases n,
{
    if n > 0 {
        lemma_firing_moves_nobody(players, bullets, loadings, n - 1);
        players.rows_are_live();
        assert(players.live(players.rows()[n - 1].0));
    }
}

proof fn lemma_alike_encounters<C: Fn(Session, Session) -> Option<(Motion, Motion)>>(
    collide: C,
    a: SlotTable<Session>,
    b: SlotTable<Session>,
    outcomes_a: Seq<Option<(Motion, Motion)>>,
    outcomes_b: Seq<Option<(Motion, Motion)>>,
    n: int,
)
    requires
        a.slots.len() <= usize::MAX,
        all_move_alike(a, b),
        all_pairs(a) == all_pairs(b),
        0 <= n <= all_pairs(a).len(),
        collide_sees_motion_only(collide),
        answers_outcomes(collide, a, outcomes_a),
        answers_outcomes(collide, b, outcomes_b),
    ensures
        all_move_alike(
            after_encounters(a, all_pairs(a), outcomes_a, n),
            after_encounters(b, all_pairs(b), outcomes_b, n),
        ),
        forall|h: Handle| #[trigger]
            a.live(h) ==> after_encounters(a, all_pairs(a), outcomes_a, n).live(h),
    decreases n,
{
    if n > 0 {
        let met = all_pairs(a);
        lemma_alike_encounters(collide, a, b, outcomes_a, outcomes_b, n - 1);
        lemma_pairs_are_live(a);
        let x = after_encounters(a, met, outcomes_a, n - 1);
        let y = after_encounters(b, met, outcomes_b, n - 1);
        let (first, second) = met[n - 1];
        assert(a.live(first) && a.live(second));
        assert(x.live(first) && x.live(second));
        let _ = x.slots[first.slot as int];
        let _ = x.slots[second.slot as int];
        assert(answers_outcome(collide, a, met, outcomes_a, n - 1));
        assert(answers_outcome(collide, b, met, outcomes_b, n - 1));
        assert(outcomes_a[n - 1] == outcomes_b[n - 1]);
        let c = after_encounters(a, met, outcomes_a, n);
        let d = after_encounters(b, met, outcomes_b, n);
        assert forall|i: int| 0 <= i < c.slots.len() implies match #[trigger] c.slots[i] {
            None => d.slots[i] is None,
            Some(entry) => d.slots[i] is Some && d.slots[i]->0.generation == entry.generation
                && moves_alike(entry.value, d.slots[i]->0.value),
        } by {
            let _ = x.slots[i];
        }
        assert forall|h: Handle| #[trigger] a.live(h) implies c.live(h) by {
            assert(x.live(h));
        }
    }
}

/// Shooting moves nobody. When the same players are in the same places, with the
/// same velocities, radii and pushes, a step takes them to the same places and
/// gives them the same velocities, whatever bullets there are and whoever fires or
/// aims; as long as the physics of motion looks at nothing else.
pub proof fn shooting_moves_nobody<
    I: Fn(Session) -> Motion,
    C: Fn(Session, Session) -> Option<(Motion, Motion)>,
>(
    impulse: I,
    collide: C,
    players_a: SlotTable<Session>,
    bullets_a: SlotTable<Projectile>,
    answers_a: Answers,
    players_b: SlotTable<Session>,
    bullets_b: SlotTable<Projectile>,
    answers_b: Answers,
)
    requires
        players_a.wf(),
        players_b.wf(),
        all_move_alike(players_a, players_b),
        impulse_sees_motion_only(impulse),
        collide_sees_motion_only(collide),
        answers_motions(impulse, players_a, answers_a.motions),
        answers_motions(impulse, players_b, answers_b.motions),
        answers_outcomes(collide, answers_a.meeting(players_a, bullets_a), answers_a.outcomes),
        answers_outcomes(collide, answers_b.meeting(players_b, bullets_b), answers_b.outcomes),
    ensures
        all_move_alike(
            answers_a.players(players_a, bullets_a),
            answers_b.players(players_b, bullets_b),
        ),
{
    let n = players_a.slots.len() as int;
    lemma_alike_rows(players_a, players_b, n);
    assert forall|k: int| 0 <= k < players_a.rows().len() implies #[trigger] answers_a.motions[k]
        == answers_b.motions[k] by {
        assert(moves_alike(players_a.rows()[k].1, players_b.rows()[k].1));
        assert(call_ensures(impulse, (players_b.rows()[k].1,), answers_b.motions[k]));
    }
    lemma_alike_motions(players_a, players_b, answers_a.motions, answers_b.motions);

    let pushed_a = answers_a.pushed(players_a);
    let pushed_b = answers_b.pushed(players_b);
    let meeting_a = answers_a.meeting(players_a, bullets_a);
    let meeting_b = answers_b.meeting(players_b, bullets_b);
    lemma_firing_moves_nobody(
        pushed_a,
        answers_a.unspent(bullets_a),
        answers_a.loadings,
        pushed_a.rows().len() as int,
    );
    lemma_firing_moves_nobody(
        pushed_b,
        answers_b.unspent(bullets_b),
        answers_b.loadings,
        pushed_b.rows().len() as int,
    );
    lemma_alike_trans(pushed_a, pushed_b, meeting_b);
    lemma_alike_symm(pushed_a, meeting_a);
    lemma_alike_trans(meeting_a, pushed_a, meeting_b);

    lemma_alike_rows(meeting_a, meeting_b, n);
    assert(handles(meeting_a.rows()) =~= handles(meeting_b.rows()));
    let met = all_pairs(meeting_a);
    lemma_alike_encounters(
        collide,
        meeting_a,
        meeting_b,
        answers_a.outcomes,
        answers_b.outcomes,
        met.len() as int,
    );
}

/// A connection ends once, and last. What its task signals is every message up to
/// the first event that hangs up, in order; then, if there is such an event, that the
/// connection has ended; and then nothing more, whatever else happens.
pub proof fn messages_come_before_the_end<M>(events: Seq<ConnectionEvent<M>>, limit: usize)
    ensures
        ({
            let n = first_where(events, hangs_up(limit));
            let messages = Seq::new(n as nat, |i: int| events[i]->message);
            let end = if n < events.len() {
                seq![None]
            } else {
                Seq::empty()
            };
            &&& signals(events, limit) == messages + end
            &&& forall|i: int| 0 <= i < n ==> (#[trigger] messages[i]) is Some
        }),
    decreases events.len(),
{
    let n = first_where(events, hangs_up(limit));
    lemma_found(events, hangs_up(limit));
    if n > 0 {
        let rest = events.drop_first();
        messages_come_before_the_end(rest, limit);
        assert(first_where(rest, hangs_up(limit)) == n - 1);
        assert(!hangs_up(limit)(events[0]));
    }
    let messages = Seq::new(n as nat, |i: int| events[i]->message);
    let end = if n < events.len() {
        seq![None]
    } else {
        Seq::empty()
    };
    assert(signals(events, limit) =~= messages + end);
    assert forall|i: int| 0 <= i < n implies (#[trigger] messages[i]) is Some by {
        assert(!hangs_up(limit)(events[i]));
    }
}

/// What a writing task sets out to write is every message up to the first event
/// that ends it, once each and in order; after a write that failed, or when no more
/// messages come, it writes nothing, whatever else happens.
pub proof fn messages_are_written_in_order<M>(events: Seq<WriterEvent<M>>)
    ensures
        ({
            let n = first_where(events, ends_writing());
            let messages = Seq::new(n as nat, |i: int| outgoing(events[i]));
            &&& written(events).len() == n
            &&& forall|i: int| 0 <= i < n ==> (#[trigger] messages[i]) == Some(written(events)[i])
        }),
    decreases events.len(),
{
    let n = first_where(events, ends_writing());
    let messages = Seq::new(n as nat, |i: int| outgoing(events[i]));
    lemma_found(events, ends_writing());
    if n > 0 {
        let rest = events.drop_first();
        messages_are_written_in_order(rest);
        let rest_messages = Seq::new((n - 1) as nat, |i: int| outgoing(rest[i]));
        assert(!ends_writing()(events[0]));
        assert forall|i: int| 0 <= i < n implies (#[trigger] messages[i]) == Some(
            written(events)[i],
        ) by {
            if i > 0 {
                assert(rest_messages[i - 1] == Some(written(rest)[i - 1]));
                assert(rest[i - 1] == events[i]);
            }
        }
    }
}

/// The greeting is written before any message.
pub proof fn greeting_is_written_first<M>(greeting: M, events: Seq<WriterEvent<M>>)
    ensures
        written(seq![WriterEvent::Start(greeting)] + events) == seq![greeting] + written(events),
{
    let all = seq![WriterEvent::Start(greeting)] + events;
    assert(all.drop_first() =~= events);
}

/// A client says the same hello each time that one is due, until there is an answer,
/// and then no more.
pub proof fn hello_is_repeated_until_answered(init: ClientInit, events: Seq<HandshakeEvent>)
    ensures
        hellos(init, events) == Seq::new(
            first_where(events, is_answer()) as nat,
            |i: int| hello_of(init),
        ),
    decreases events.len(),
{
    lemma_found(events, is_answer());
    if events.len() > 0 && !is_answer()(events[0]) {
        hello_is_repeated_until_answered(init, events.drop_first());
        lemma_found(events.drop_first(), is_answer());
    }
    assert(hellos(init, events) =~= Seq::new(
        first_where(events, is_answer()) as nat,
        |i: int| hello_of(init),
    ));
}

} // verus!
