use game::entity::{Address, Direction, Session};
use game::protocol::{
    Player, PlayerInput, TcpClientMessage, Timestamp, NUM_RANDOM_BYTES,
};
use game::scalar::{Vector2, HALF, ONE, ZERO};
use game::slots::Handle;
use game::step::{Flight, Loading, Motion};
use game::world::{Welcome, World};

const ZERO_TIME: Timestamp = Timestamp { secs: 1_600_000_000, nanos: 5 };

fn token(n: u8) -> [u8; NUM_RANDOM_BYTES] {
    [n; NUM_RANDOM_BYTES]
}

fn address(port: u16) -> Address {
    Address::V4 { ipv4: 0x7f00_0001, port }
}

fn join(world: &mut World, n: u8) -> Welcome {
    world.accept_with(token(n), 60, ZERO_TIME).unwrap()
}

fn input() -> PlayerInput {
    PlayerInput::idle()
}

#[test]
fn scalars_are_bit_patterns() {
    assert_eq!(ZERO, 0.0f64.to_bits());
    assert_eq!(HALF, 0.5f64.to_bits());
    assert_eq!(ONE, 1.0f64.to_bits());
}

#[test]
fn new_world_is_empty() {
    let world = World::new();
    assert_eq!(world.player_rows().len(), 0);
    assert_eq!(world.bullet_rows().len(), 0);
    assert_eq!(world.tick(), 0);
    assert_eq!(world.player(Handle { slot: 0, generation: 0 }), None);
}

#[test]
fn first_player_is_greeted() {
    let mut world = World::new();
    let welcome = world.accept_with(token(7), 60, ZERO_TIME).unwrap();
    let player = Player {
        id: 0,
        radius: 1.0f64.to_bits(),
        position: Vector2 { x: 0, y: 0 },
        velocity: Vector2 { x: 0, y: 0 },
    };
    assert_eq!(welcome.handle, Handle { slot: 0, generation: 0 });
    assert!(welcome.recipients.is_empty());
    assert_eq!(welcome.joined, TcpClientMessage::PlayerJoined(0));
    assert_eq!(welcome.init.id, 0);
    assert_eq!(welcome.init.random_bytes, token(7));
    assert_eq!(welcome.init.tick_rate, 60);
    assert_eq!(welcome.init.tick_zero, ZERO_TIME);
    assert_eq!(welcome.init.update.tick, 0);
    assert_eq!(welcome.init.update.players, vec![player]);
    assert!(welcome.init.update.bullets.is_empty());
    assert_eq!(
        world.player(welcome.handle),
        Some(Session {
            player,
            random_bytes: token(7),
            udp_addr: None,
            input: Direction { x: 0, y: 0 },
            angle: 0,
            firing: false,
            fire_counter: 0,
        })
    );
}

#[test]
fn tick_rate_is_cut_to_a_byte() {
    let mut world = World::new();
    assert_eq!(world.accept_with(token(1), 316, ZERO_TIME).unwrap().init.tick_rate, 60);
    assert_eq!(world.accept_with(token(1), 256, ZERO_TIME).unwrap().init.tick_rate, 0);
}

#[test]
fn those_present_hear_of_a_newcomer() {
    let mut world = World::new();
    let a = join(&mut world, 1);
    let b = join(&mut world, 2);
    let c = join(&mut world, 3);
    assert_eq!(b.recipients, vec![a.handle]);
    assert_eq!(c.recipients, vec![a.handle, b.handle]);
    assert_eq!(c.joined, TcpClientMessage::PlayerJoined(2));
    let ids: Vec<u8> = c.init.update.players.iter().map(|p| p.id).collect();
    assert_eq!(ids, vec![0, 1, 2]);
}

#[test]
fn seventeenth_player_is_turned_away() {
    let mut world = World::new();
    for n in 0..16 {
        assert_eq!(join(&mut world, n).init.id, n);
    }
    let before = world.player_rows();
    assert_eq!(world.accept_with(token(16), 60, ZERO_TIME), None);
    assert_eq!(world.accept(60, ZERO_TIME), None);
    assert_eq!(world.player_rows(), before);
    world.disconnect(Handle { slot: 5, generation: 0 });
    let welcome = join(&mut world, 16);
    assert_eq!(welcome.handle, Handle { slot: 5, generation: 1 });
    assert_eq!(welcome.init.id, 5);
}

#[test]
fn bytes_are_drawn_at_random() {
    let mut world = World::new();
    let a = world.accept(60, ZERO_TIME).unwrap();
    let b = world.accept(60, ZERO_TIME).unwrap();
    assert_ne!(a.init.random_bytes, b.init.random_bytes);
    assert_eq!(world.player(a.handle).unwrap().random_bytes, a.init.random_bytes);
    assert_eq!(world.player(b.handle).unwrap().random_bytes, b.init.random_bytes);
}

#[test]
fn those_who_stay_hear_of_a_leaver() {
    let mut world = World::new();
    let a = join(&mut world, 1);
    let b = join(&mut world, 2);
    let c = join(&mut world, 3);
    let farewell = world.disconnect(b.handle);
    assert_eq!(farewell.recipients, vec![a.handle, c.handle]);
    assert_eq!(farewell.left, TcpClientMessage::PlayerLeft(1));
    assert_eq!(world.player(b.handle), None);
    assert_eq!(world.player_rows().len(), 2);
}

#[test]
fn leaving_undoes_joining() {
    let mut world = World::new();
    join(&mut world, 1);
    let before = world.player_rows();
    let b = join(&mut world, 2);
    world.disconnect(b.handle);
    assert_eq!(world.player_rows(), before);
}

#[test]
fn handle_of_a_leaver_names_nobody_again() {
    let mut world = World::new();
    let a = join(&mut world, 1);
    world.disconnect(a.handle);
    let b = join(&mut world, 2);
    assert_eq!(b.handle.slot, a.handle.slot);
    assert_ne!(b.handle, a.handle);
    assert_eq!(world.player(a.handle), None);
    assert!(world.player(b.handle).is_some());
}

#[test]
fn last_free_slot_is_filled_first() {
    let mut world = World::new();
    let handles: Vec<Handle> = (0..4).map(|n| join(&mut world, n).handle).collect();
    world.disconnect(handles[1]);
    world.disconnect(handles[3]);
    assert_eq!(join(&mut world, 9).handle, Handle { slot: 3, generation: 2 });
    assert_eq!(join(&mut world, 9).handle, Handle { slot: 1, generation: 2 });
    assert_eq!(join(&mut world, 9).handle, Handle { slot: 4, generation: 2 });
}

#[test]
fn greeting_identifies_player() {
    let mut world = World::new();
    let a = join(&mut world, 1);
    let b = join(&mut world, 2);
    assert_eq!(world.bind_address(&b.init.random_bytes, address(9)), Some(b.handle));
    assert_eq!(world.player(b.handle).unwrap().udp_addr, Some(address(9)));
    assert_eq!(world.player(a.handle).unwrap().udp_addr, None);
    let pushed = vec![PlayerInput { right: true, ..input() }];
    assert_eq!(world.apply_inputs(address(9), &pushed), Some(b.handle));
    assert_eq!(world.player(b.handle).unwrap().input, Direction { x: 1, y: 0 });
    assert_eq!(world.player(a.handle).unwrap().input, Direction { x: 0, y: 0 });
}

#[test]
fn first_of_equal_bytes_is_bound() {
    let mut world = World::new();
    let a = join(&mut world, 1);
    join(&mut world, 1);
    assert_eq!(world.bind_address(&token(1), address(9)), Some(a.handle));
}

#[test]
fn bytes_that_differ_at_the_end_do_not_match() {
    let mut world = World::new();
    join(&mut world, 1);
    let mut bytes = token(1);
    bytes[15] = 2;
    assert_eq!(world.bind_address(&bytes, address(9)), None);
    assert_eq!(world.player_rows()[0].1.udp_addr, None);
}

#[test]
fn player_can_move_to_another_address() {
    let mut world = World::new();
    let a = join(&mut world, 1);
    world.bind_address(&token(1), address(9));
    world.bind_address(&token(1), address(10));
    assert_eq!(world.player(a.handle).unwrap().udp_addr, Some(address(10)));
    assert_eq!(world.apply_inputs(address(9), &vec![input()]), None);
    assert_eq!(world.apply_inputs(address(10), &vec![input()]), Some(a.handle));
}

#[test]
fn strangers_are_ignored() {
    let mut world = World::new();
    join(&mut world, 1);
    let before = world.player_rows();
    assert_eq!(world.bind_address(&token(2), address(9)), None);
    assert_eq!(world.apply_inputs(address(9), &vec![input()]), None);
    assert_eq!(world.player_rows(), before);
}

#[test]
fn addresses_differ_by_every_part() {
    let mut world = World::new();
    let a = join(&mut world, 1);
    let here = Address::V6 { ipv6: 1, port: 2, flowinfo: 3, scope_id: 4 };
    world.bind_address(&token(1), here);
    for other in vec![
        Address::V6 { ipv6: 0, port: 2, flowinfo: 3, scope_id: 4 },
        Address::V6 { ipv6: 1, port: 0, flowinfo: 3, scope_id: 4 },
        Address::V6 { ipv6: 1, port: 2, flowinfo: 0, scope_id: 4 },
        Address::V6 { ipv6: 1, port: 2, flowinfo: 3, scope_id: 0 },
        Address::V4 { ipv4: 1, port: 2 },
    ] {
        assert_eq!(world.apply_inputs(other, &vec![input()]), None);
    }
    assert_eq!(world.apply_inputs(here, &vec![input()]), Some(a.handle));
}

#[test]
fn no_inputs_change_nothing() {
    let mut world = World::new();
    join(&mut world, 1);
    world.bind_address(&token(1), address(9));
    let before = world.player_rows();
    assert_eq!(world.apply_inputs(address(9), &vec![]), None);
    assert_eq!(world.player_rows(), before);
}

#[test]
fn last_input_counts() {
    let mut world = World::new();
    let a = join(&mut world, 1);
    world.bind_address(&token(1), address(9));
    let inputs = vec![
        PlayerInput { up: true, angle: 1.0f64.to_bits(), ..input() },
        PlayerInput { down: true, left: true, angle: 2.0f64.to_bits(), mouse_left: true, ..input() },
    ];
    world.apply_inputs(address(9), &inputs);
    let session = world.player(a.handle).unwrap();
    assert_eq!(session.input, Direction { x: -1, y: 1 });
    assert_eq!(session.angle, 2.0f64.to_bits());
    assert!(session.firing);
}

#[test]
fn opposite_keys_cancel_out() {
    let mut world = World::new();
    let a = join(&mut world, 1);
    world.bind_address(&token(1), address(9));
    let all = PlayerInput { up: true, down: true, left: true, right: true, ..input() };
    world.apply_inputs(address(9), &vec![all]);
    assert_eq!(world.player(a.handle).unwrap().input, Direction { x: 0, y: 0 });
}

#[test]
fn who_stops_firing_has_nothing_loaded() {
    let mut world = World::new();
    let a = join(&mut world, 1);
    world.bind_address(&token(1), address(9));
    world.apply_inputs(address(9), &vec![PlayerInput { mouse_left: true, ..input() }]);
    world.step(
        |s| Motion { position: s.player.position, velocity: s.player.velocity },
        |_| false,
        |_| Loading { fire_counter: 0.75f64.to_bits(), shot: None },
        |p| Flight { position: p.bullet.position, lifetime: p.lifetime },
        |_, _| None,
    );
    assert_eq!(world.player(a.handle).unwrap().fire_counter, 0.75f64.to_bits());
    world.apply_inputs(address(9), &vec![PlayerInput { mouse_left: true, ..input() }]);
    assert_eq!(world.player(a.handle).unwrap().fire_counter, 0.75f64.to_bits());
    world.apply_inputs(address(9), &vec![input()]);
    let session = world.player(a.handle).unwrap();
    assert!(!session.firing);
    assert_eq!(session.fire_counter, 0.0f64.to_bits());
}

#[test]
fn snapshot_shows_everyone_in_slot_order() {
    let mut world = World::new();
    let handles: Vec<Handle> = (0..3).map(|n| join(&mut world, n).handle).collect();
    world.disconnect(handles[0]);
    let update = world.snapshot();
    let ids: Vec<u8> = update.players.iter().map(|p| p.id).collect();
    assert_eq!(ids, vec![1, 2]);
    for (handle, session) in world.player_rows() {
        let seen = update.player(session.player.id).unwrap();
        assert_eq!(seen.player, world.player(handle).unwrap().player);
        assert_eq!(seen.tick, 0);
    }
}

#[test]
fn snapshots_go_to_known_addresses() {
    let mut world = World::new();
    for n in 0..4 {
        join(&mut world, n);
    }
    assert!(world.snapshot_targets().is_empty());
    world.bind_address(&token(3), address(33));
    world.bind_address(&token(1), address(11));
    assert_eq!(world.snapshot_targets(), vec![address(11), address(33)]);
}

#[test]
fn datagrams_move_nobody() {
    let mut world = World::new();
    for n in 0..3 {
        join(&mut world, n);
    }
    let before = world.player_rows();
    world.bind_address(&token(1), address(9));
    world.apply_inputs(address(9), &vec![PlayerInput { left: true, mouse_left: true, ..input() }]);
    let after = world.player_rows();
    for i in 0..3 {
        assert_eq!(after[i].1.player, before[i].1.player);
        assert_eq!(after[i].1 == before[i].1, i != 1);
    }
}

#[test]
fn world_of_one_slot_turns_the_second_player_away() {
    let mut world = World::with_capacity(1, 4);
    let first = join(&mut world, 1);
    assert_eq!(first.init.id, 0);
    let before = world.player_rows();
    assert_eq!(world.accept_with(token(2), 60, Timestamp { secs: 0, nanos: 0 }), None);
    assert_eq!(world.player_rows(), before);
    assert_eq!(before.len(), 1);
    assert_eq!(before[0].1.random_bytes, token(1));
}

#[test]
fn largest_world_has_an_id_for_everybody() {
    let mut world = World::with_capacity(256, 65536);
    for n in 0..=255u8 {
        assert_eq!(join(&mut world, n).init.id, n);
    }
    assert!(world.accept_with(token(0), 60, Timestamp { secs: 0, nanos: 0 }).is_none());
}

#[test]
fn room_stays_the_same() {
    let mut world = World::with_capacity(2, 1);
    for _ in 0..3 {
        let a = join(&mut world, 1);
        let b = join(&mut world, 2);
        assert!(world.accept_with(token(3), 60, Timestamp { secs: 0, nanos: 0 }).is_none());
        world.disconnect(a.handle);
        world.disconnect(b.handle);
    }
}
