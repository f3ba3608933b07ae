use game::entity::{Address, Projectile, Session};
use game::protocol::{PlayerInput, Timestamp, NUM_RANDOM_BYTES};
use game::scalar::{Scalar, Vector2};
use game::slots::Handle;
use game::step::{Flight, Loading, Motion};
use game::world::World;

fn f(x: f64) -> Scalar {
    x.to_bits()
}

fn v(x: f64, y: f64) -> Vector2 {
    Vector2 { x: f(x), y: f(y) }
}

fn stay(s: Session) -> Motion {
    Motion { position: s.player.position, velocity: s.player.velocity }
}

fn hover(p: Projectile) -> Flight {
    Flight { position: p.bullet.position, lifetime: p.lifetime }
}

fn reload(_: Session) -> Loading {
    Loading { fire_counter: f(0.25), shot: None }
}

fn shoot(_: Session) -> Loading {
    Loading { fire_counter: f(0.5), shot: Some(v(32.0, 0.0)) }
}

fn never(_: Projectile) -> bool {
    false
}

fn pass(_: Session, _: Session) -> Option<(Motion, Motion)> {
    None
}

/// A world with `n` players, of whom those in `firing` fire.
fn world_with(n: u8, firing: &[u8]) -> World {
    filled(World::new(), n, firing)
}

/// A world that `n` players have joined, of whom those in `firing` fire.
fn filled(mut world: World, n: u8, firing: &[u8]) -> World {
    for i in 0..n {
        let bytes = [i; NUM_RANDOM_BYTES];
        let from = Address::V4 { ipv4: 1, port: i as u16 };
        world.accept_with(bytes, 60, Timestamp { secs: 0, nanos: 0 }).unwrap();
        world.bind_address(&bytes, from);
        let fires = firing.contains(&i);
        let input = PlayerInput { mouse_left: fires, angle: f(i as f64), ..PlayerInput::idle() };
        world.apply_inputs(from, &vec![input]);
    }
    world
}

fn handle(slot: usize) -> Handle {
    Handle { slot, generation: 0 }
}

#[test]
fn players_move_as_they_are_told() {
    let mut world = world_with(2, &[]);
    let blocked = world.step(
        |s| Motion { position: v(s.player.id as f64, 1.0), velocity: v(2.0, 3.0) },
        never,
        reload,
        hover,
        pass,
    );
    assert!(!blocked);
    let rows = world.player_rows();
    assert_eq!(rows[0].1.player.position, v(0.0, 1.0));
    assert_eq!(rows[1].1.player.position, v(1.0, 1.0));
    assert_eq!(rows[1].1.player.velocity, v(2.0, 3.0));
    assert_eq!(world.tick(), 0);
}

#[test]
fn step_keeps_everything_else_of_a_player() {
    let mut world = world_with(3, &[1]);
    let before = world.player_rows();
    world.step(
        |_| Motion { position: v(9.0, 9.0), velocity: v(8.0, 8.0) },
        never,
        shoot,
        hover,
        |_, _| Some((Motion { position: v(1.0, 1.0), velocity: v(0.0, 0.0) }, Motion { position: v(2.0, 2.0), velocity: v(0.0, 0.0) })),
    );
    let after = world.player_rows();
    assert_eq!(before.len(), after.len());
    for i in 0..before.len() {
        let (h, old) = before[i];
        let (g, new) = after[i];
        assert_eq!(h, g);
        assert_eq!(new.player.id, old.player.id);
        assert_eq!(new.player.radius, old.player.radius);
        assert_eq!(new.random_bytes, old.random_bytes);
        assert_eq!(new.udp_addr, old.udp_addr);
        assert_eq!(new.input, old.input);
        assert_eq!(new.angle, old.angle);
        assert_eq!(new.firing, old.firing);
    }
    assert_eq!(after[0].1.fire_counter, f(0.0));
    assert_eq!(after[1].1.fire_counter, f(0.5));
    assert_eq!(after[2].1.fire_counter, f(0.0));
}

#[test]
fn shot_leaves_from_where_the_player_has_moved_to() {
    let mut world = world_with(3, &[2]);
    world.step(
        |s| Motion { position: v(s.player.id as f64, 5.0), velocity: v(0.0, 0.0) },
        never,
        shoot,
        |p| Flight { position: v(f64::from_bits(p.bullet.position.x) + 0.5, 5.0), lifetime: f(0.125) },
        pass,
    );
    let rows = world.bullet_rows();
    assert_eq!(rows.len(), 1);
    let (h, shot) = rows[0];
    assert_eq!(h, handle(0));
    assert_eq!(shot.bullet.id, 0);
    assert_eq!(shot.bullet.player_id, 2);
    assert_eq!(shot.bullet.position, v(2.5, 5.0));
    assert_eq!(shot.bullet.angle, f(2.0));
    assert_eq!(shot.bullet.radius, f(0.5));
    assert_eq!(shot.velocity, v(32.0, 0.0));
    assert_eq!(shot.lifetime, f(0.125));
    assert_eq!(world.snapshot().bullets, vec![shot.bullet]);
}

#[test]
fn loading_without_a_shot_adds_no_bullet() {
    let mut world = world_with(2, &[0, 1]);
    world.step(stay, never, reload, hover, pass);
    assert!(world.bullet_rows().is_empty());
    assert_eq!(world.player_rows()[1].1.fire_counter, f(0.25));
}

#[test]
fn bullet_id_is_its_slot() {
    let mut world = world_with(1, &[0]);
    for _ in 0..12 {
        world.step(stay, never, shoot, hover, pass);
    }
    let ids: Vec<u16> = world.bullet_rows().iter().map(|r| r.1.bullet.id).collect();
    assert_eq!(ids, vec![0, 1, 2, 3, 4, 5, 6, 7, 8, 9, 10, 11]);
    // The bullets in slots 8 and 9 go, and the latter slot is taken again.
    world.step(stay, |p| p.bullet.id == 8 || p.bullet.id == 9, shoot, hover, pass);
    let rows = world.bullet_rows();
    assert_eq!(rows.len(), 11);
    assert_eq!(rows[8].0, Handle { slot: 9, generation: 2 });
    assert_eq!(rows[8].1.bullet.id, 9);
}

#[test]
fn bullet_id_does_not_depend_on_the_generation() {
    let mut world = world_with(1, &[0]);
    for n in 0..130u64 {
        world.step(stay, |_| true, shoot, hover, pass);
        let rows = world.bullet_rows();
        assert_eq!(rows.len(), 1);
        assert_eq!(rows[0].0, Handle { slot: 0, generation: n });
        assert_eq!(rows[0].1.bullet.id, 0);
    }
}

#[test]
fn bullet_ids_are_distinct() {
    let mut world = world_with(2, &[0, 1]);
    for _ in 0..512 {
        world.step(stay, never, shoot, hover, pass);
    }
    let ids: Vec<u16> = world.bullet_rows().iter().map(|r| r.1.bullet.id).collect();
    assert_eq!(ids, (0..1024).collect::<Vec<u16>>());
}

#[test]
fn picture_shows_every_bullet() {
    let mut world = world_with(3, &[0, 1, 2]);
    world.step(stay, never, shoot, hover, pass);
    world.step(stay, |p| p.bullet.id == 1, reload, hover, pass);
    let picture = world.snapshot();
    let rows = world.bullet_rows();
    assert_eq!(rows.len(), 2);
    for (_, shot) in rows {
        let found = picture.bullets.iter().find(|b| b.id == shot.bullet.id);
        assert_eq!(found, Some(&shot.bullet));
    }
}

#[test]
fn shots_fill_the_places_that_are_left() {
    let mut world = world_with(3, &[0, 1]);
    for _ in 0..2 {
        assert!(!world.step(stay, never, shoot, hover, pass));
    }
    // One of the four goes; of the two who fire, one shoots.
    let blocked = world.step(
        stay,
        |p| p.bullet.id == 2,
        |s| if s.player.id == 0 { shoot(s) } else { reload(s) },
        hover,
        pass,
    );
    assert!(!blocked);
    assert_eq!(world.bullet_rows().len(), 4);
}

#[test]
fn shooting_moves_nobody() {
    let push = |s: Session| Motion {
        position: v(
            f64::from_bits(s.player.position.x) + 0.25 * (1.0 + s.player.id as f64),
            f64::from_bits(s.player.position.y),
        ),
        velocity: s.player.velocity,
    };
    let swap = |a: Session, b: Session| {
        Some((
            Motion { position: b.player.position, velocity: a.player.velocity },
            Motion { position: a.player.position, velocity: b.player.velocity },
        ))
    };
    let mut quiet = world_with(3, &[]);
    let mut loud = world_with(3, &[0, 2]);
    for _ in 0..5 {
        quiet.step(push, never, reload, hover, swap);
        loud.step(push, |p| p.bullet.id == 3, shoot, hover, swap);
    }
    assert!(quiet.bullet_rows().is_empty());
    assert!(!loud.bullet_rows().is_empty());
    let places = |world: &World| -> Vec<Vector2> {
        world.player_rows().iter().map(|r| r.1.player.position).collect()
    };
    assert_eq!(places(&quiet), places(&loud));
    assert_ne!(places(&quiet)[0], v(0.0, 0.0));
}

#[test]
fn there_is_room_in_the_counters() {
    let mut world = world_with(2, &[0]);
    assert!(world.can_step());
    assert!(world.can_disconnect());
    world.step(stay, never, shoot, hover, pass);
    world.step(stay, |_| true, shoot, hover, pass);
    world.disconnect(handle(1));
    assert!(world.can_step());
    assert!(world.can_disconnect());
}

#[test]
fn spent_bullets_go_and_the_others_stay() {
    let mut world = world_with(1, &[0]);
    for n in 0..5 {
        world.step(
            |s| Motion { position: v(n as f64, 0.0), velocity: s.player.velocity },
            never,
            shoot,
            hover,
            pass,
        );
    }
    let before = world.bullet_rows();
    let spent = |p: Projectile| p.bullet.position == v(1.0, 0.0) || p.bullet.position == v(3.0, 0.0);
    world.step(stay, spent, reload, hover, pass);
    let after = world.bullet_rows();
    assert_eq!(after, vec![before[0], before[2], before[4]]);
}

#[test]
fn firing_ends_when_there_are_too_many_bullets() {
    let mut world = world_with(4, &[0, 1, 2, 3]);
    for _ in 0..255 {
        assert!(!world.step(stay, never, shoot, hover, pass));
    }
    // Two places are left: the third shot finds none, the fourth is not tried.
    assert!(!world.step(
        stay,
        never,
        |s| if s.player.id < 2 { shoot(s) } else { reload(s) },
        hover,
        pass,
    ));
    assert_eq!(world.bullet_rows().len(), 1022);
    let blocked = world.step(
        stay,
        never,
        |_| Loading { fire_counter: f(0.9), shot: Some(v(1.0, 1.0)) },
        hover,
        pass,
    );
    assert!(blocked);
    assert_eq!(world.bullet_rows().len(), 1024);
    let counters: Vec<Scalar> = world.player_rows().iter().map(|r| r.1.fire_counter).collect();
    assert_eq!(counters, vec![f(0.9), f(0.9), f(0.9), f(0.25)]);
}

#[test]
fn bullets_go_before_players_fire() {
    let mut world = world_with(1, &[0]);
    for _ in 0..1024 {
        assert!(!world.step(stay, never, shoot, hover, pass));
    }
    assert!(world.step(stay, never, shoot, hover, pass));
    assert!(!world.step(stay, |p| p.bullet.id == 10, shoot, hover, pass));
}

#[test]
fn every_two_players_meet_once() {
    let mut world = world_with(4, &[]);
    world.disconnect(handle(1));
    assert_eq!(
        world.player_pairs(),
        vec![(handle(0), handle(2)), (handle(0), handle(3)), (handle(2), handle(3))]
    );
}

#[test]
fn no_pairs_without_two_players() {
    assert!(world_with(0, &[]).player_pairs().is_empty());
    assert!(world_with(1, &[]).player_pairs().is_empty());
}

#[test]
fn later_encounters_see_what_earlier_ones_did() {
    let mut world = world_with(3, &[]);
    world.step(
        |_| Motion { position: v(0.0, 0.0), velocity: v(0.0, 0.0) },
        never,
        reload,
        hover,
        |a, b| {
            let x = f64::from_bits(a.player.position.x);
            let y = f64::from_bits(b.player.position.x);
            Some((
                Motion { position: v(x + 1.0, 0.0), velocity: v(0.0, 0.0) },
                Motion { position: v(y + 10.0 * (x + 1.0), 0.0), velocity: v(0.0, 0.0) },
            ))
        },
    );
    // (0, 1): 1 and 10; (0, 2): 2 and 20; (1, 2): 11 and 130.
    let xs: Vec<f64> =
        world.player_rows().iter().map(|r| f64::from_bits(r.1.player.position.x)).collect();
    assert_eq!(xs, vec![2.0, 11.0, 130.0]);
}

#[test]
fn bullets_are_fired_before_players_meet() {
    let mut world = world_with(2, &[0]);
    world.step(
        |_| Motion { position: v(1.0, 0.0), velocity: v(0.0, 0.0) },
        never,
        shoot,
        hover,
        |_, _| {
            let far = Motion { position: v(100.0, 0.0), velocity: v(0.0, 0.0) };
            Some((far, far))
        },
    );
    assert_eq!(world.bullet_rows()[0].1.bullet.position, v(1.0, 0.0));
    assert_eq!(world.player_rows()[0].1.player.position, v(100.0, 0.0));
}

#[test]
fn ticks_wrap_around() {
    let mut world = World::new();
    for n in 0..65536u32 {
        assert_eq!(world.tick() as u32, n);
        world.run_tick(stay, never, reload, hover, pass);
    }
    assert_eq!(world.tick(), 0);
    assert_eq!(world.snapshot().tick, 0);
}

#[test]
fn flying_changes_place_and_time_only() {
    let mut world = world_with(2, &[0, 1]);
    world.step(stay, never, shoot, hover, pass);
    let before = world.bullet_rows();
    world.step(
        stay,
        never,
        reload,
        |_| Flight { position: v(7.0, 7.0), lifetime: f(0.5) },
        pass,
    );
    let after = world.bullet_rows();
    assert_eq!(after.len(), 2);
    for i in 0..2 {
        let (handle, mut expected) = before[i];
        expected.bullet.position = v(7.0, 7.0);
        expected.lifetime = f(0.5);
        assert_eq!(after[i], (handle, expected));
    }
}

#[test]
fn handle_of_a_spent_bullet_names_no_other() {
    let mut world = world_with(1, &[0]);
    world.step(stay, never, shoot, hover, pass);
    let gone = world.bullet_rows()[0].0;
    world.step(stay, |_| true, shoot, hover, pass);
    let next = world.bullet_rows()[0].0;
    assert_eq!(next.slot, gone.slot);
    assert!(next.generation > gone.generation);
}

#[test]
fn shot_without_room_loads_its_player_and_ends_the_firing() {
    let mut world = filled(World::with_capacity(2, 1), 2, &[1]);
    assert!(!world.step(stay, never, shoot, hover, pass));
    let before = world.bullet_rows();
    assert_eq!(before.len(), 1);
    // Now both fire, and there is no room.
    let both = vec![PlayerInput { mouse_left: true, ..PlayerInput::idle() }];
    world.apply_inputs(Address::V4 { ipv4: 1, port: 0 }, &both);
    let blocked = world.step(
        stay,
        never,
        |_| Loading { fire_counter: f(0.75), shot: Some(v(1.0, 0.0)) },
        |p| Flight { position: p.bullet.position, lifetime: f(0.25) },
        pass,
    );
    assert!(blocked);
    let after = world.bullet_rows();
    assert_eq!(after.len(), 1);
    assert_eq!(after[0].0, before[0].0);
    assert_eq!(after[0].1, Projectile { lifetime: f(0.25), ..before[0].1 });
    let counters: Vec<Scalar> = world.player_rows().iter().map(|r| r.1.fire_counter).collect();
    assert_eq!(counters, vec![f(0.75), f(0.5)]);
}

#[test]
fn weapons_are_loaded_in_turn() {
    let mut world = filled(World::with_capacity(3, 2), 3, &[0, 2]);
    let load = |s: Session| Loading {
        fire_counter: f(f64::from_bits(s.fire_counter) + 0.125),
        shot: None,
    };
    for _ in 0..3 {
        assert!(!world.step(stay, never, load, hover, pass));
    }
    let counters: Vec<Scalar> = world.player_rows().iter().map(|r| r.1.fire_counter).collect();
    assert_eq!(counters, vec![f(0.375), f(0.0), f(0.375)]);
}

#[test]
fn step_keeps_what_loading_keeps() {
    let mut world = filled(World::with_capacity(4, 3), 4, &[0, 1, 3]);
    let load = |s: Session| {
        let sum = f64::from_bits(s.fire_counter) + 0.3;
        Loading {
            fire_counter: f(sum % 1.0),
            shot: if sum >= 1.0 { Some(v(1.0, 0.0)) } else { None },
        }
    };
    for n in 0..50 {
        world.step(stay, |p| n % 7 == 0 && p.bullet.id == 1, load, hover, pass);
        for (_, session) in world.player_rows() {
            let counter = f64::from_bits(session.fire_counter);
            assert!(0.0 <= counter && counter < 1.0);
        }
    }
    let input = vec![PlayerInput::idle()];
    world.apply_inputs(Address::V4 { ipv4: 1, port: 1 }, &input);
    assert_eq!(world.player(handle(1)).unwrap().fire_counter, f(0.0));
}

#[test]
fn bullets_fly_or_go() {
    let mut world = filled(World::with_capacity(3, 5), 3, &[0, 1, 2]);
    world.step(stay, never, shoot, hover, pass);
    let before = world.bullet_rows();
    assert_eq!(before.len(), 3);
    // One of three goes, and three more are fired.
    let blocked = world.step(
        stay,
        |p| p.bullet.id == 1,
        shoot,
        |p| Flight { position: v(p.bullet.id as f64, 7.0), lifetime: f(0.5) },
        pass,
    );
    assert!(!blocked);
    let after = world.bullet_rows();
    assert_eq!(after.len(), 5);
    let find = |h: Handle| after.iter().find(|r| r.0 == h).map(|r| r.1);
    assert_eq!(find(before[1].0), None);
    for k in vec![0, 2] {
        let (h, b) = before[k];
        let flown = find(h).unwrap();
        assert_eq!(flown.bullet.position, v(b.bullet.id as f64, 7.0));
        assert_eq!(flown.lifetime, f(0.5));
        assert_eq!(flown.bullet.player_id, b.bullet.player_id);
        assert_eq!(flown.velocity, b.velocity);
    }
}
