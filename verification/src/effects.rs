//! What the operations do, field by field: what of a result comes from which part of
//! what went in, and what stays as it was.

use crate::client::{hello_of, player_before, Client};
use crate::connection::{outgoing, reaction, ConnectionAction, ConnectionEvent, WriterEvent};
use crate::entity::{Address, Session};
use crate::input::{after_event, after_sample, Button, InputEvent, Key};
use crate::protocol::{
    packet_size, Bullet, ClientInit, Id, PacketSize, Player, PlayerInput, TcpClientMessage,
    Timestamp, UdpClientMessage, UdpServerMessage, WorldUpdate, NUM_RANDOM_BYTES,
};
use crate::search::{first_where, lemma_found};
use crate::server::{
    after_datagram, datagram_action, is_broadcast, is_farewell, stops, ServerAction, ServerEvent,
};
use crate::slots::{rank, Handle, SlotTable};
use crate::timeline::{bullet_in, is_bullet, is_player, latest_two, player_in, Timeline};
use crate::world::{
    accepted, accepted_at_random, addresses, after_binding, after_inputs, direction_of, handles,
    has_address, has_bytes, holder_of, new_session, sender_at, Welcome, World,
};
use vstd::prelude::*;

verus! {

/// A key or a button is held down after an event of its own just when the event says
/// so, whatever was held down before; and no event changes what belongs to another
/// key, to another button, to the mouse's direction or to the clock.
pub proof fn events_set_their_own_fields(input: PlayerInput, event: InputEvent)
    ensures
        ({
            let after = after_event(input, event);
            &&& after.up == (match event {
                InputEvent::Keyboard { key: Key::W, down } => down,
                _ => input.up,
            })
            &&& after.left == (match event {
                InputEvent::Keyboard { key: Key::A, down } => down,
                _ => input.left,
            })
            &&& after.down == (match event {
                InputEvent::Keyboard { key: Key::S, down } => down,
                _ => input.down,
            })
            &&& after.right == (match event {
                InputEvent::Keyboard { key: Key::D, down } => down,
                _ => input.right,
            })
            &&& after.mouse_left == (match event {
                InputEvent::Mouse { button: Button::Left, down } => down,
                _ => input.mouse_left,
            })
            &&& after.mouse_right == (match event {
                InputEvent::Mouse { button: Button::Right, down } => down,
                _ => input.mouse_right,
            })
            &&& after.angle == (match event {
                InputEvent::Aim { angle } => angle,
                _ => input.angle,
            })
            &&& after.tick == input.tick
        }),
{
}

/// A press and then a release of the same key or button leave it up, whatever
/// happened before; a release and then a press leave it down.
pub proof fn last_event_of_a_key_counts(
    input: PlayerInput,
    key: Key,
    button: Button,
    first: bool,
    last: bool,
)
    ensures
        ({
            let once = after_event(input, InputEvent::Keyboard { key, down: first });
            let twice = after_event(once, InputEvent::Keyboard { key, down: last });
            &&& key is W ==> twice.up == last && twice.left == input.left && twice.down
                == input.down && twice.right == input.right
            &&& key is A ==> twice.left == last && twice.up == input.up && twice.down == input.down
                && twice.right == input.right
            &&& key is S ==> twice.down == last && twice.up == input.up && twice.left == input.left
                && twice.right == input.right
            &&& key is D ==> twice.right == last && twice.up == input.up && twice.left
                == input.left && twice.down == input.down
            &&& key is Other ==> twice == input
        }),
        ({
            let once = after_event(input, InputEvent::Mouse { button, down: first });
            let twice = after_event(once, InputEvent::Mouse { button, down: last });
            &&& button is Left ==> twice.mouse_left == last && twice.mouse_right
                == input.mouse_right
            &&& button is Right ==> twice.mouse_right == last && twice.mouse_left
                == input.mouse_left
            &&& button is Other ==> twice == input
        }),
{
}

/// A push is to the right, to the left, down or up just when the key for that is held
/// down and the opposite one is not, and it is of length one along each axis.
pub proof fn keys_say_the_direction(input: PlayerInput)
    ensures
        direction_of(input).x == 1 <==> input.right && !input.left,
        direction_of(input).x == -1 <==> input.left && !input.right,
        direction_of(input).x == 0 <==> input.left == input.right,
        direction_of(input).y == 1 <==> input.down && !input.up,
        direction_of(input).y == -1 <==> input.up && !input.down,
        direction_of(input).y == 0 <==> input.up == input.down,
{
}

/// The first row where `p` holds is that of `h`, if it holds there and nowhere in a
/// lower slot.
proof fn lemma_first_row<T>(table: SlotTable<T>, p: spec_fn((Handle, T)) -> bool, h: Handle)
    requires
        table.wf(),
        table.live(h),
        p((h, table.at(h))),
        forall|g: Handle| #[trigger]
            table.live(g) && g.slot < h.slot ==> !p((g, table.at(g))),
    ensures
        first_where(table.rows(), p) < table.rows().len(),
        table.rows()[first_where(table.rows(), p)] == (h, table.at(h)),
{
    table.rows_are_live();
    lemma_found(table.rows(), p);
    let k = first_where(table.rows(), p);
    let r = rank(table.slots, h.slot as int);
    assert(p(table.rows()[r]));
    assert(k <= r);
    if k < r {
        assert(table.rows()[k].0.slot < table.rows()[r].0.slot);
        assert(table.live(table.rows()[k].0));
    }
}

/// Inputs steer the first player who is known by the address that they came from, and
/// nobody else. That player aims, fires and pushes as the last of them says, whatever
/// the player did before, and keeps what is loaded only while firing.
pub proof fn last_input_steers_its_sender(
    players: SlotTable<Session>,
    from: Address,
    inputs: Vec<PlayerInput>,
    h: Handle,
)
    requires
        players.wf(),
        inputs@.len() > 0,
        players.live(h),
        players.at(h).udp_addr == Some(from),
        forall|g: Handle| #[trigger]
            players.live(g) && g.slot < h.slot ==> players.at(g).udp_addr != Some(from),
    ensures
        ({
            let after = after_inputs(players, from, inputs@);
            let input = inputs@[inputs@.len() - 1];
            let (old_self, new_self) = (players.at(h), after.at(h));
            &&& after_datagram(players, from, Some(UdpServerMessage::PlayerInput(inputs))) == after
            &&& sender_at(players, from) == Some(h)
            &&& after.live(h)
            &&& new_self.angle == input.angle
            &&& new_self.firing == input.mouse_left
            &&& new_self.input.x == 1 <==> input.right && !input.left
            &&& new_self.input.x == -1 <==> input.left && !input.right
            &&& new_self.input.x == 0 <==> input.left == input.right
            &&& new_self.input.y == 1 <==> input.down && !input.up
            &&& new_self.input.y == -1 <==> input.up && !input.down
            &&& new_self.input.y == 0 <==> input.up == input.down
            &&& input.mouse_left ==> new_self.fire_counter == old_self.fire_counter
            &&& !input.mouse_left ==> new_self.fire_counter == 0
            &&& new_self.player == old_self.player
            &&& new_self.random_bytes == old_self.random_bytes
            &&& new_self.udp_addr == old_self.udp_addr
            &&& forall|g: Handle| g != h ==> (#[trigger] after.live(g) <==> players.live(g))
            &&& forall|g: Handle|
                g != h && #[trigger] after.live(g) ==> after.at(g) == players.at(g)
        }),
{
    lemma_first_row(players, has_address(from), h);
    players.set_is_wf(h, after_inputs(players, from, inputs@).at(h));
}

/// No inputs steer nobody.
pub proof fn no_input_steers_nobody(
    players: SlotTable<Session>,
    from: Address,
    inputs: Vec<PlayerInput>,
)
    requires
        inputs@.len() == 0,
    ensures
        after_inputs(players, from, inputs@) == players,
        after_datagram(players, from, Some(UdpServerMessage::PlayerInput(inputs))) == players,
        after_datagram(players, from, None) == players,
{
}

/// What a player said last is all that counts of what the player said: earlier inputs
/// leave no trace, but for what is loaded.
pub proof fn later_inputs_replace_earlier_ones(
    players: SlotTable<Session>,
    from: Address,
    earlier: Seq<PlayerInput>,
    later: Seq<PlayerInput>,
    h: Handle,
)
    requires
        players.wf(),
        later.len() > 0,
        players.live(h),
    ensures
        ({
            let direct = after_inputs(players, from, later);
            let both = after_inputs(after_inputs(players, from, earlier), from, later);
            &&& both.live(h) && direct.live(h)
            &&& both.at(h).angle == direct.at(h).angle
            &&& both.at(h).firing == direct.at(h).firing
            &&& both.at(h).input == direct.at(h).input
            &&& both.at(h).player == direct.at(h).player
        }),
{
    let once = after_inputs(players, from, earlier);
    players.rows_are_live();
    lemma_found(players.rows(), has_address(from));
    let k = first_where(players.rows(), has_address(from));
    if k < players.rows().len() {
        let sender = players.rows()[k].0;
        assert(players.live(sender));
        players.set_is_wf(sender, once.at(sender));
        assert(once =~= players || once =~= players.set(sender, once.at(sender)));
        assert forall|g: Handle| #[trigger]
            once.live(g) && g.slot < sender.slot implies once.at(g).udp_addr != Some(from) by {
            assert(players.live(g));
            let r = rank(players.slots, g.slot as int);
            if r >= k {
                assert(r > k ==> players.rows()[k].0.slot < players.rows()[r].0.slot);
            }
            assert(!has_address(from)(players.rows()[r]));
        }
        lemma_first_row(once, has_address(from), sender);
    }
}

/// The bytes of a greeting bind the address that they came from to the first player
/// who was given them, and change nothing else of that player and nothing of others.
pub proof fn hello_binds_its_sender(
    players: SlotTable<Session>,
    from: Address,
    init: ClientInit,
    h: Handle,
)
    requires
        players.wf(),
        players.live(h),
        players.at(h).random_bytes@ == init.random_bytes@,
        forall|g: Handle| #[trigger]
            players.live(g) && g.slot < h.slot ==> players.at(g).random_bytes@
                != init.random_bytes@,
    ensures
        ({
            let after = after_datagram(players, from, Some(hello_of(init)));
            let (old_self, new_self) = (players.at(h), after.at(h));
            &&& after_binding(players, init.random_bytes@, from) == after
            &&& holder_of(players, init.random_bytes@) == Some(h)
            &&& datagram_action(players, from, Some(hello_of(init))) == ServerAction::Bound(h, from)
            &&& after.live(h)
            &&& new_self.udp_addr == Some(from)
            &&& new_self.player == old_self.player
            &&& new_self.random_bytes == old_self.random_bytes
            &&& new_self.input == old_self.input
            &&& new_self.angle == old_self.angle
            &&& new_self.firing == old_self.firing
            &&& new_self.fire_counter == old_self.fire_counter
            &&& forall|g: Handle| g != h ==> (#[trigger] after.live(g) <==> players.live(g))
            &&& forall|g: Handle|
                g != h && #[trigger] after.live(g) ==> after.at(g) == players.at(g)
        }),
{
    lemma_first_row(players, has_bytes(init.random_bytes@), h);
    players.set_is_wf(h, after_binding(players, init.random_bytes@, from).at(h));
}

/// A greeting whose bytes nobody was given binds nobody, and only greetings bind.
pub proof fn nothing_else_binds(
    players: SlotTable<Session>,
    from: Address,
    init: ClientInit,
    inputs: Vec<PlayerInput>,
)
    requires
        players.wf(),
        forall|g: Handle| #[trigger]
            players.live(g) ==> players.at(g).random_bytes@ != init.random_bytes@,
    ensures
        after_datagram(players, from, Some(hello_of(init))) == players,
        datagram_action(players, from, Some(hello_of(init))) == ServerAction::Continue,
        datagram_action(players, from, Some(UdpServerMessage::PlayerInput(inputs)))
            == ServerAction::Continue,
        datagram_action(players, from, None) == ServerAction::Continue,
{
    players.rows_are_live();
    lemma_found(players.rows(), has_bytes(init.random_bytes@));
    let k = first_where(players.rows(), has_bytes(init.random_bytes@));
    if k < players.rows().len() {
        assert(players.live(players.rows()[k].0));
    }
}

/// A server ends when clients cannot connect any more, when datagrams or messages
/// cannot be received any more, and on a datagram that is empty or fills its 64 bytes;
/// on nothing else.
pub proof fn server_ends_on_failures_only(event: ServerEvent)
    ensures
        stops(event) <==> {
            ||| event is AcceptFailed
            ||| event is MessagesEnded
            ||| event is ReceiveFailed
            ||| event is Datagram && (event->num_bytes == 0 || event->num_bytes == 64)
        },
{
}

/// An entry that is put in, taken out or replaced leaves every other entry alone.
pub proof fn entries_do_not_touch_each_other<T>(
    table: SlotTable<T>,
    h: Handle,
    value: T,
    other: Handle,
)
    requires
        table.wf(),
        table.live(h),
        other != h,
    ensures
        table.set(h, value).get(h) == Some(value),
        table.set(h, value).get(other) == table.get(other),
        table.remove(h).get(h) == None::<T>,
        table.remove(h).get(other) == table.get(other),
        table.set(h, value).generation == table.generation,
        table.remove(h).generation == table.generation + 1,
{
}

/// An entry that is put in is found under its handle, which named nothing before, and
/// leaves every other entry alone.
pub proof fn new_entry_is_found<T>(table: SlotTable<T>, value: T, other: Handle)
    requires
        table.wf(),
        !table.full(),
        other != table.next_handle(),
    ensures
        table.get(table.next_handle()) == None::<T>,
        table.insert(value).get(table.next_handle()) == Some(value),
        table.insert(value).get(other) == table.get(other),
        table.insert(value).generation == table.generation,
{
    table.insert_is_wf(value);
    assert(table.slots[table.vacant[0] as int] is None);
}

/// A player is let in just when a slot is free, and then stands at rest in the middle,
/// with a radius of one, an id that is the slot's number and nothing loaded, pushing
/// and aiming nowhere. The greeting names the player, the bytes, the tick rate and when
/// tick zero was; all others are told the new id; and nobody else changes.
pub proof fn newcomer_starts_at_rest(
    before: World,
    after: World,
    random_bytes: [u8; NUM_RANDOM_BYTES],
    tick_rate: u32,
    tick_zero: Timestamp,
    result: Option<Welcome>,
)
    requires
        before.wf(),
        accepted(before, after, random_bytes, tick_rate, tick_zero, result),
    ensures
        result is None <==> before.players().rows().len() == before.players().slots.len(),
        result is None ==> after.players() == before.players(),
        after.bullets() == before.bullets(),
        after.now() == before.now(),
        result matches Some(welcome) ==> {
            let h = welcome.handle;
            let newcomer = after.players().at(h);
            &&& after.players().live(h)
            &&& !before.players().live(h)
            &&& newcomer.player.id == h.slot
            &&& newcomer.player.radius == 0x3FF0_0000_0000_0000u64
            &&& newcomer.player.position.x == 0 && newcomer.player.position.y == 0
            &&& newcomer.player.velocity.x == 0 && newcomer.player.velocity.y == 0
            &&& newcomer.random_bytes == random_bytes
            &&& newcomer.udp_addr is None
            &&& newcomer.input.x == 0 && newcomer.input.y == 0
            &&& newcomer.angle == 0
            &&& !newcomer.firing
            &&& newcomer.fire_counter == 0
            &&& welcome.init.id == h.slot
            &&& welcome.init.random_bytes == random_bytes
            &&& welcome.init.tick_rate == tick_rate % 256
            &&& welcome.init.tick_zero == tick_zero
            &&& welcome.joined matches TcpClientMessage::PlayerJoined(id) && id == h.slot
            &&& after.shown_by(welcome.init.update)
            &&& names_all_but(welcome.recipients@, after.players(), h)
            &&& forall|g: Handle|
                g != h ==> #[trigger] after.players().get(g) == before.players().get(g)
        },
{
    if let Some(welcome) = result {
        let players = before.players();
        let id = players.next_handle().slot as u8;
        let session = new_session(id, random_bytes);
        players.rows_are_live();
        players.insert_is_wf(session);
        assert(players.slots[players.vacant[0] as int] is None);
        lemma_names_all(players, welcome.recipients@);
        let h = welcome.handle;
        assert forall|g: Handle| g != h implies #[trigger] after.players().get(g) == players.get(
            g,
        ) by {
            new_entry_is_found(players, session, g);
        }
        assert forall|g: Handle| #[trigger] welcome.recipients@.contains(g) <==> g != h
            && after.players().live(g) by {
            assert(g != h ==> after.players().get(g) == players.get(g));
            let _ = players.live(g);
        }
    }
}

/// Who is let in with bytes that were drawn is let in with the bytes that the greeting
/// holds; and who is turned away is turned away with any.
pub proof fn drawn_bytes_are_those_of_the_greeting(
    before: World,
    after: World,
    tick_rate: u32,
    tick_zero: Timestamp,
    result: Option<Welcome>,
)
    requires
        accepted_at_random(before, after, tick_rate, tick_zero, result),
    ensures
        result matches Some(welcome) ==> accepted(
            before,
            after,
            welcome.init.random_bytes,
            tick_rate,
            tick_zero,
            result,
        ),
        result is None ==> after.players() == before.players() && before.players().full(),
        after.bullets() == before.bullets(),
        after.now() == before.now(),
{
}

/// Whether `recipients` names each player but one, once, in slot order.
pub open spec fn names_all_but(
    recipients: Seq<Handle>,
    players: SlotTable<Session>,
    h: Handle,
) -> bool {
    &&& forall|g: Handle| #[trigger]
        recipients.contains(g) <==> g != h && players.live(g)
    &&& forall|i: int, j: int|
        0 <= i < j < recipients.len() ==> (#[trigger] recipients[i]).slot < (
        #[trigger] recipients[j]).slot
}

proof fn lemma_names_all(players: SlotTable<Session>, recipients: Seq<Handle>)
    requires
        players.wf(),
        recipients == handles(players.rows()),
    ensures
        forall|g: Handle| #[trigger] recipients.contains(g) <==> players.live(g),
        forall|i: int, j: int|
            0 <= i < j < recipients.len() ==> (#[trigger] recipients[i]).slot < (
            #[trigger] recipients[j]).slot,
{
    players.rows_are_live();
    assert forall|g: Handle| #[trigger] recipients.contains(g) <==> players.live(g) by {
        if players.live(g) {
            let r = rank(players.slots, g.slot as int);
            assert(recipients[r] == g);
        }
        if recipients.contains(g) {
            let k = choose|k: int| 0 <= k < recipients.len() && recipients[k] == g;
            assert(players.live(players.rows()[k].0));
        }
    }
    assert forall|i: int, j: int| 0 <= i < j < recipients.len() implies (
    #[trigger] recipients[i]).slot < (#[trigger] recipients[j]).slot by {
        assert(players.rows()[i].0.slot < players.rows()[j].0.slot);
    }
}

/// When a player leaves, all others are told this player's id, and nobody else is.
pub proof fn farewell_reaches_all_who_stay(
    players: SlotTable<Session>,
    h: Handle,
    action: ServerAction,
)
    requires
        players.wf(),
        players.live(h),
        players.generation < u64::MAX,
        is_farewell(players, h, action),
    ensures
        action matches ServerAction::PartWith(farewell) && names_all_but(
            farewell.recipients@,
            players,
            h,
        ) && farewell.left == TcpClientMessage::PlayerLeft(players.at(h).player.id),
{
    if let ServerAction::PartWith(farewell) = action {
        let rest = players.remove(h);
        players.remove_is_wf(h);
        lemma_names_all(rest, farewell.recipients@);
        assert forall|g: Handle| #[trigger] farewell.recipients@.contains(g) <==> g != h
            && players.live(g) by {
            let _ = rest.live(g);
        }
    }
}

/// A picture shows each player once, in the order of their ids and just as the player
/// is, and nobody else; so it is with the bullets. It carries the time of the world.
pub proof fn picture_is_exact(world: World, update: WorldUpdate)
    requires
        world.wf(),
        world.shown_by(update),
    ensures
        update.tick == world.now(),
        forall|player: Player| #[trigger]
            update.players@.contains(player) <==> exists|h: Handle| #[trigger]
                world.players().live(h) && world.players().at(h).player == player,
        forall|i: int, j: int|
            0 <= i < j < update.players@.len() ==> (#[trigger] update.players@[i]).id < (
            #[trigger] update.players@[j]).id,
        forall|bullet: Bullet| #[trigger]
            update.bullets@.contains(bullet) <==> exists|h: Handle| #[trigger]
                world.bullets().live(h) && world.bullets().at(h).bullet == bullet,
        forall|i: int, j: int|
            0 <= i < j < update.bullets@.len() ==> (#[trigger] update.bullets@[i]).id < (
            #[trigger] update.bullets@[j]).id,
{
    let players = world.players();
    let bullets = world.bullets();
    players.rows_are_live();
    bullets.rows_are_live();
    assert forall|player: Player| #[trigger] update.players@.contains(player) <==> exists|
        h: Handle,
    | #[trigger] players.live(h) && players.at(h).player == player by {
        if update.players@.contains(player) {
            let k = choose|k: int| 0 <= k < update.players@.len() && update.players@[k] == player;
            assert(players.live(players.rows()[k].0));
        }
        if exists|h: Handle| #[trigger] players.live(h) && players.at(h).player == player {
            let h = choose|h: Handle| #[trigger]
                players.live(h) && players.at(h).player == player;
            assert(update.players@[rank(players.slots, h.slot as int)] == player);
        }
    }
    assert forall|i: int, j: int| 0 <= i < j < update.players@.len() implies (
    #[trigger] update.players@[i]).id < (#[trigger] update.players@[j]).id by {
        assert(players.rows()[i].0.slot < players.rows()[j].0.slot);
        assert(players.live(players.rows()[i].0) && players.live(players.rows()[j].0));
    }
    assert forall|bullet: Bullet| #[trigger] update.bullets@.contains(bullet) <==> exists|
        h: Handle,
    | #[trigger] bullets.live(h) && bullets.at(h).bullet == bullet by {
        if update.bullets@.contains(bullet) {
            let k = choose|k: int| 0 <= k < update.bullets@.len() && update.bullets@[k] == bullet;
            assert(bullets.live(bullets.rows()[k].0));
        }
        if exists|h: Handle| #[trigger] bullets.live(h) && bullets.at(h).bullet == bullet {
            let h = choose|h: Handle| #[trigger]
                bullets.live(h) && bullets.at(h).bullet == bullet;
            assert(update.bullets@[rank(bullets.slots, h.slot as int)] == bullet);
        }
    }
    assert forall|i: int, j: int| 0 <= i < j < update.bullets@.len() implies (
    #[trigger] update.bullets@[i]).id < (#[trigger] update.bullets@[j]).id by {
        assert(bullets.rows()[i].0.slot < bullets.rows()[j].0.slot);
        assert(bullets.live(bullets.rows()[i].0) && bullets.live(bullets.rows()[j].0));
    }
}

/// How many of the first `n` players have a known address.
pub open spec fn known(rows: Seq<(Handle, Session)>, n: int) -> int
    decreases n,
{
    if n <= 0 {
        0
    } else {
        known(rows, n - 1) + if rows[n - 1].1.udp_addr is Some {
            1int
        } else {
            0
        }
    }
}

proof fn lemma_known(rows: Seq<(Handle, Session)>, n: int)
    requires
        0 <= n <= rows.len(),
    ensures
        addresses(rows, n).len() == known(rows, n),
        forall|k: int|
            0 <= k < n ==> match (#[trigger] rows[k]).1.udp_addr {
                None => true,
                Some(address) => 0 <= known(rows, k) < known(rows, n) && addresses(
                    rows,
                    n,
                )[known(rows, k)] == address,
            },
    decreases n,
{
    if n > 0 {
        lemma_known(rows, n - 1);
    }
}

/// A broadcast holds an exact picture of the world, and goes once to every player
/// whose address is known, in slot order, and nowhere else.
pub proof fn broadcast_reaches_each_known_player_once(world: World, action: ServerAction)
    requires
        world.wf(),
        is_broadcast(world, action),
    ensures
        ({
            let rows = world.players().rows();
            &&& action is Broadcast
            &&& action->Broadcast_message matches UdpClientMessage::WorldUpdate(update)
                && world.shown_by(update)
            &&& action->targets@.len() == known(rows, rows.len() as int)
            &&& forall|k: int|
                0 <= k < rows.len() ==> match (#[trigger] rows[k]).1.udp_addr {
                    None => true,
                    Some(address) => 0 <= known(rows, k) < action->targets@.len()
                        && action->targets@[known(rows, k)] == address,
                }
        }),
{
    lemma_known(world.players().rows(), world.players().rows().len() as int);
}

/// Of three pictures the oldest is dropped, and the other two are kept, the older one
/// first.
pub proof fn oldest_picture_is_dropped(
    previous: WorldUpdate,
    current: WorldUpdate,
    update: WorldUpdate,
)
    requires
        previous.tick <= current.tick,
    ensures
        ({
            let (older, newer) = latest_two(previous, current, update);
            &&& older.tick <= newer.tick
            &&& {
                ||| older == previous && newer == current && update.tick <= older.tick
                ||| older == update && newer == current && previous.tick <= older.tick
                ||| older == current && newer == update && previous.tick <= older.tick
            }
            &&& update.tick > current.tick ==> newer == update
            &&& update.tick < previous.tick ==> older == previous && newer == current
            &&& previous.tick < update.tick < current.tick ==> older == update && newer == current
        }),
{
}

/// The picture of a player under an id is the first one with that id, if there is one.
pub proof fn first_of_an_id_is_found(
    players: Seq<Player>,
    bullets: Seq<Bullet>,
    id: Id,
    number: u16,
)
    ensures
        player_in(players, id) is None <==> forall|k: int|
            0 <= k < players.len() ==> (#[trigger] players[k]).id != id,
        forall|k: int|
            0 <= k < players.len() && (#[trigger] players[k]).id == id && (forall|j: int|
                0 <= j < k ==> (#[trigger] players[j]).id != id) ==> player_in(players, id) == Some(
                players[k],
            ),
        bullet_in(bullets, number) is None <==> forall|k: int|
            0 <= k < bullets.len() ==> (#[trigger] bullets[k]).id != number,
        forall|k: int|
            0 <= k < bullets.len() && (#[trigger] bullets[k]).id == number && (forall|j: int|
                0 <= j < k ==> (#[trigger] bullets[j]).id != number) ==> bullet_in(bullets, number)
                == Some(bullets[k]),
{
    lemma_found(players, is_player(id));
    lemma_found(bullets, is_bullet(number));
    let p = first_where(players, is_player(id));
    let b = first_where(bullets, is_bullet(number));
    if p < players.len() {
        assert(players[p].id == id);
    }
    assert forall|k: int|
        0 <= k < players.len() && (#[trigger] players[k]).id == id && (forall|j: int|
            0 <= j < k ==> (#[trigger] players[j]).id != id) implies player_in(players, id) == Some(
        players[k],
    ) by {
        if k < p {
            assert(!is_player(id)(players[k]));
        }
    }
    if b < bullets.len() {
        assert(bullets[b].id == number);
    }
    assert forall|k: int|
        0 <= k < bullets.len() && (#[trigger] bullets[k]).id == number && (forall|j: int|
            0 <= j < k ==> (#[trigger] bullets[j]).id != number) implies bullet_in(bullets, number)
        == Some(bullets[k]) by {
        if k < b {
            assert(!is_bullet(number)(bullets[k]));
        }
    }
    if player_in(players, id) is None {
        assert forall|k: int| 0 <= k < players.len() implies (#[trigger] players[k]).id != id by {
            assert(!is_player(id)(players[k]));
        }
    }
    if bullet_in(bullets, number) is None {
        assert forall|k: int| 0 <= k < bullets.len() implies (#[trigger] bullets[k]).id
            != number by {
            assert(!is_bullet(number)(bullets[k]));
        }
    }
}

/// Every player of the newer picture is drawn, whoever it is: on the way to where the
/// newer picture shows the player, from where the older one does; and in place, if the
/// older one does not show the player. One's own is white, the others are red.
pub proof fn players_are_drawn_towards_the_newer_picture(client: Client, k: int)
    requires
        0 <= k < client.timeline.current.players@.len(),
    ensures
        ({
            let before = client.timeline.previous.players@;
            let player = client.timeline.current.players@[k];
            let sprite = client.sprites()[k];
            &&& client.sprites().len() == client.timeline.current.players@.len()
                + client.timeline.current.bullets@.len()
            &&& sprite.current.position == player.position
            &&& sprite.current.radius == player.radius
            &&& (forall|j: int| 0 <= j < before.len() ==> (#[trigger] before[j]).id != player.id)
                ==> sprite.previous.position == player.position && sprite.previous.radius
                == player.radius
            &&& forall|i: int|
                0 <= i < before.len() && (#[trigger] before[i]).id == player.id && (forall|j: int|
                    0 <= j < i ==> (#[trigger] before[j]).id != player.id)
                    ==> sprite.previous.position == before[i].position && sprite.previous.radius
                    == before[i].radius
            &&& sprite.color.r == 255
            &&& sprite.color.g == if player.id == client.player_id { 255int } else { 0 }
            &&& sprite.color.b == if player.id == client.player_id { 255int } else { 0 }
        }),
{
    first_of_an_id_is_found(
        client.timeline.previous.players@,
        client.timeline.previous.bullets@,
        client.timeline.current.players@[k].id,
        0,
    );
}

/// Every bullet of the newer picture is drawn after the players: on the way to where
/// the newer picture shows it, from where the older one does; and in place, if the older
/// one does not show it. One's own are white, those of others are red.
pub proof fn bullets_are_drawn_towards_the_newer_picture(client: Client, k: int)
    requires
        0 <= k < client.timeline.current.bullets@.len(),
    ensures
        ({
            let before = client.timeline.previous.bullets@;
            let bullet = client.timeline.current.bullets@[k];
            let sprite = client.sprites()[client.timeline.current.players@.len() + k];
            &&& client.sprites().len() == client.timeline.current.players@.len()
                + client.timeline.current.bullets@.len()
            &&& sprite.current.position == bullet.position
            &&& sprite.current.radius == bullet.radius
            &&& (forall|j: int| 0 <= j < before.len() ==> (#[trigger] before[j]).id != bullet.id)
                ==> sprite.previous.position == bullet.position && sprite.previous.radius
                == bullet.radius
            &&& forall|i: int|
                0 <= i < before.len() && (#[trigger] before[i]).id == bullet.id && (forall|j: int|
                    0 <= j < i ==> (#[trigger] before[j]).id != bullet.id)
                    ==> sprite.previous.position == before[i].position && sprite.previous.radius
                    == before[i].radius
            &&& sprite.color.r == 255
            &&& sprite.color.g == if bullet.player_id == client.player_id { 255int } else { 0 }
            &&& sprite.color.b == if bullet.player_id == client.player_id { 255int } else { 0 }
        }),
{
    first_of_an_id_is_found(
        client.timeline.previous.players@,
        client.timeline.previous.bullets@,
        0,
        client.timeline.current.bullets@[k].id,
    );
}

/// The place from which one aims is where the older picture first shows the player, or
/// where the player is, if it does not.
pub proof fn aim_starts_where_the_older_picture_shows_one(player: Player, before: Seq<Player>)
    ensures
        (forall|j: int| 0 <= j < before.len() ==> (#[trigger] before[j]).id != player.id)
            ==> player_before(player, before) == player,
        forall|i: int|
            0 <= i < before.len() && (#[trigger] before[i]).id == player.id && (forall|j: int|
                0 <= j < i ==> (#[trigger] before[j]).id != player.id) ==> player_before(
                player,
                before,
            ) == before[i],
{
    first_of_an_id_is_found(before, Seq::empty(), player.id, 0);
}

/// A reading task hands a message over just when a packet could be read as this message
/// and is neither empty nor as long as the buffer; in every other case it hangs up.
pub proof fn only_complete_packets_are_handed_over<M>(
    event: ConnectionEvent<M>,
    limit: usize,
    message: M,
)
    ensures
        reaction(event, limit) == ConnectionAction::Forward(message) <==> event is Read
            && event->message == Some(message) && event->num_bytes != 0 && event->num_bytes
            != limit,
        !(reaction(event, limit) is Forward) <==> reaction(event, limit) is HangUp,
        event is Read ==> (packet_size(event->num_bytes, limit) == PacketSize::Complete
            <==> event->num_bytes != 0 && event->num_bytes != limit),
        event is Read ==> (packet_size(event->num_bytes, limit) == PacketSize::Closed
            <==> event->num_bytes == 0),
{
}

/// A writing task is asked to write just the greeting and the messages.
pub proof fn greeting_and_messages_are_written<M>(message: M)
    ensures
        outgoing(WriterEvent::Start(message)) == Some(message),
        outgoing(WriterEvent::Message(message)) == Some(message),
        outgoing(WriterEvent::<M>::WriteFailed) is None,
        outgoing(WriterEvent::<M>::ChannelClosed) is None,
{
}

/// From the greeting to the game: a client that sends back what it was greeted with is
/// bound to its address, and what it then says steers it and nobody else. It takes that
/// nobody was given the same bytes or uses the same address.
pub proof fn greeted_client_can_steer(
    before: World,
    after: World,
    random_bytes: [u8; NUM_RANDOM_BYTES],
    tick_rate: u32,
    tick_zero: Timestamp,
    welcome: Welcome,
    from: Address,
    inputs: Vec<PlayerInput>,
)
    requires
        before.wf(),
        after.wf(),
        accepted(before, after, random_bytes, tick_rate, tick_zero, Some(welcome)),
        inputs@.len() > 0,
        forall|h: Handle| #[trigger]
            before.players().live(h) ==> before.players().at(h).random_bytes@ != random_bytes@
                && before.players().at(h).udp_addr != Some(from),
    ensures
        ({
            let bound = after_datagram(after.players(), from, Some(hello_of(welcome.init)));
            let steered = after_datagram(
                bound,
                from,
                Some(UdpServerMessage::PlayerInput(inputs)),
            );
            let input = inputs@[inputs@.len() - 1];
            &&& bound.live(welcome.handle) && steered.live(welcome.handle)
            &&& bound.at(welcome.handle).udp_addr == Some(from)
            &&& steered.at(welcome.handle).angle == input.angle
            &&& steered.at(welcome.handle).firing == input.mouse_left
            &&& forall|g: Handle|
                g != welcome.handle && #[trigger] steered.live(g) ==> before.players().live(g)
                    && steered.at(g) == before.players().at(g)
        }),
{
    newcomer_starts_at_rest(before, after, random_bytes, tick_rate, tick_zero, Some(welcome));
    let h = welcome.handle;
    let players = after.players();
    assert forall|g: Handle| #[trigger] players.live(g) && g != h implies before.players().live(g)
        && players.at(g) == before.players().at(g) by {
        assert(players.get(g) == before.players().get(g));
    }
    hello_binds_its_sender(players, from, welcome.init, h);
    let bound = after_datagram(players, from, Some(hello_of(welcome.init)));
    players.set_is_wf(h, bound.at(h));
    assert(bound =~= players.set(h, bound.at(h)));
    last_input_steers_its_sender(bound, from, inputs, h);
}

/// A sample adds one input behind those that wait, and leaves those alone. It is, but for
/// its tick, the last of those that came in, and carries the tick of the sample. If
/// nothing came in, or nothing can, no input is added.
pub proof fn sample_is_the_last_that_came_in(
    waiting: Seq<PlayerInput>,
    tick: int,
    drained: Seq<PlayerInput>,
    closed: bool,
)
    requires
        0 <= tick,
    ensures
        ({
            let after = after_sample(waiting, tick, drained, closed);
            let sample = after[waiting.len() as int];
            let input = drained[drained.len() - 1];
            &&& closed || drained.len() == 0 ==> after == waiting
            &&& forall|k: int| 0 <= k < waiting.len() ==> #[trigger] after[k] == waiting[k]
            &&& !closed && drained.len() > 0 ==> {
                &&& after.len() == waiting.len() + 1
                &&& sample.tick == tick % 65536
                &&& sample.up == input.up
                &&& sample.left == input.left
                &&& sample.down == input.down
                &&& sample.right == input.right
                &&& sample.mouse_left == input.mouse_left
                &&& sample.mouse_right == input.mouse_right
                &&& sample.angle == input.angle
            }
        }),
{
}

/// The clock and the pictures. Each tick takes what is drawn and where one aims one tick
/// further. Drawing starts at the older picture when the clock shows the tick of the
/// newer one, and is at the newer one when as many ticks have passed as lie between the
/// two; aiming starts one tick after the older picture.
pub proof fn drawing_lags_one_span_behind(timeline: Timeline, tick: int)
    requires
        timeline.wf(),
    ensures
        timeline.drawn_at(timeline.current.tick as int) == 0,
        ({
            let span = timeline.current.tick - timeline.previous.tick;
            timeline.drawn_at(timeline.current.tick + span) == span
        }),
        timeline.drawn_at(tick + 1) == timeline.drawn_at(tick) + 1,
        timeline.aimed_at(timeline.previous.tick + 1) == 0,
        timeline.aimed_at(tick + 1) == timeline.aimed_at(tick) + 1,
{
}

} // verus!
