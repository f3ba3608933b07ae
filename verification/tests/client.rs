use game::client::{
    expect_init, hello, on_connection, on_datagram, on_handshake, Aim, Client, Color, Disc,
    HandshakeAction, HandshakeEvent, Sprite, CLIENT_PACKET_LIMIT,
};
use game::connection::{ConnectionAction, ConnectionEvent};
use game::input::{ticks_elapsed, wire_tick, Button, Flow, InputEvent, InputQueue, Key};
use game::protocol::{
    Bullet, ClientInit, Player, PlayerInput, PlayerUpdate, TcpClientMessage, Timestamp,
    UdpClientMessage, UdpServerMessage, WorldUpdate,
};
use game::scalar::{Scalar, Vector2};
use game::timeline::{Progress, Timeline};

fn f(x: f64) -> Scalar {
    x.to_bits()
}

fn v(x: f64, y: f64) -> Vector2 {
    Vector2 { x: f(x), y: f(y) }
}

fn player(id: u8, x: f64) -> Player {
    Player { id, radius: f(1.0), position: v(x, 0.0), velocity: v(0.0, 0.0) }
}

fn bullet(id: u16, player_id: u8, x: f64) -> Bullet {
    Bullet { id, player_id, position: v(x, 1.0), angle: f(0.0), radius: f(0.5) }
}

fn update(tick: u16) -> WorldUpdate {
    WorldUpdate { tick, players: vec![], bullets: vec![] }
}

fn init(update: WorldUpdate) -> ClientInit {
    ClientInit {
        id: 1,
        random_bytes: [9; 16],
        update,
        tick_rate: 60,
        tick_zero: Timestamp { secs: 0, nanos: 0 },
    }
}

fn ticks(timeline: &Timeline) -> (u16, u16) {
    (timeline.previous.tick, timeline.current.tick)
}

#[test]
fn limits() {
    assert_eq!(CLIENT_PACKET_LIMIT, 4096);
}

#[test]
fn messages_are_handed_over() {
    let left = TcpClientMessage::PlayerLeft(3);
    let read = |num_bytes| ConnectionEvent::Read { num_bytes, message: Some(left.clone()) };
    assert_eq!(on_connection(read(5)), ConnectionAction::Forward(left.clone()));
    assert_eq!(on_connection(read(4095)), ConnectionAction::Forward(left.clone()));
    assert_eq!(on_connection(read(0)), ConnectionAction::HangUp);
    assert_eq!(on_connection(read(4096)), ConnectionAction::HangUp);
    let unread = ConnectionEvent::Read { num_bytes: 5, message: None };
    assert_eq!(on_connection(unread), ConnectionAction::HangUp);
    assert_eq!(on_connection(ConnectionEvent::ReadFailed), ConnectionAction::HangUp);
    assert_eq!(on_connection(ConnectionEvent::HandOverFailed), ConnectionAction::HangUp);
}

#[test]
fn datagrams_are_handed_over() {
    let picture = UdpClientMessage::WorldUpdate(update(3));
    let read = |num_bytes| ConnectionEvent::Read { num_bytes, message: Some(picture.clone()) };
    assert_eq!(on_datagram(read(64)), ConnectionAction::Forward(picture.clone()));
    assert_eq!(on_datagram(read(0)), ConnectionAction::HangUp);
    assert_eq!(on_datagram(read(4096)), ConnectionAction::HangUp);
    let unread = ConnectionEvent::Read { num_bytes: 64, message: None };
    assert_eq!(on_datagram(unread), ConnectionAction::HangUp);
    assert_eq!(on_datagram(ConnectionEvent::ReadFailed), ConnectionAction::HangUp);
    assert_eq!(on_datagram(ConnectionEvent::HandOverFailed), ConnectionAction::HangUp);
}

#[test]
fn first_message_has_to_be_the_greeting() {
    let greeting = init(update(3));
    assert_eq!(expect_init(TcpClientMessage::Init(greeting.clone())), Some(greeting));
    assert_eq!(expect_init(TcpClientMessage::PlayerJoined(1)), None);
    assert_eq!(expect_init(TcpClientMessage::PlayerLeft(1)), None);
}

#[test]
fn client_starts_from_the_greeting() {
    let client = Client::new(init(update(3)), 7);
    assert_eq!(client.player_id, 1);
    assert_eq!(client.tick, 7);
    assert_eq!(client.timeline.previous, update(0));
    assert_eq!(client.timeline.current, update(3));
    assert_eq!(client.input, PlayerInput::idle());
    assert_eq!(client.input.angle, f(0.0));
}

#[test]
fn pictures_are_sorted_in() {
    let mut timeline = Timeline::new(update(10));
    assert_eq!(ticks(&timeline), (0, 10));
    timeline.merge(update(20));
    assert_eq!(ticks(&timeline), (10, 20));
    timeline.merge(update(15));
    assert_eq!(ticks(&timeline), (15, 20));
    timeline.merge(update(5));
    assert_eq!(ticks(&timeline), (15, 20));
    timeline.merge(update(30));
    assert_eq!(ticks(&timeline), (20, 30));
}

#[test]
fn pictures_of_equal_ticks() {
    let mut timeline = Timeline::new(update(10));
    let again = WorldUpdate { tick: 10, players: vec![player(1, 1.0)], bullets: vec![] };
    timeline.merge(again.clone());
    assert_eq!(timeline.previous, again);
    assert_eq!(timeline.current, update(10));
    let late = WorldUpdate { tick: 10, players: vec![player(2, 2.0)], bullets: vec![] };
    timeline.merge(late);
    assert_eq!(timeline.previous, again);
    assert_eq!(timeline.current, update(10));
}

#[test]
fn order_of_arrival_does_not_matter() {
    for a in 0..8u16 {
        for b in 0..8u16 {
            if a != b {
                let mut one = Timeline { previous: update(2), current: update(5) };
                let mut two = Timeline { previous: update(2), current: update(5) };
                one.merge(update(a));
                one.merge(update(b));
                two.merge(update(b));
                two.merge(update(a));
                assert_eq!(one, two);
            }
        }
    }
}

#[test]
fn client_takes_pictures_in() {
    let mut client = Client::new(init(update(10)), 7);
    client.receive(UdpClientMessage::WorldUpdate(update(12)));
    assert_eq!(ticks(&client.timeline), (10, 12));
    assert_eq!(client.tick, 7);
}

#[test]
fn progress_between_pictures() {
    let timeline = Timeline { previous: update(100), current: update(106) };
    assert_eq!(timeline.aim_progress(103), Progress { elapsed: 2, span: 6 });
    assert_eq!(timeline.draw_progress(103), Progress { elapsed: -3, span: 6 });
    assert_eq!(timeline.draw_progress(109), Progress { elapsed: 3, span: 6 });
    assert_eq!(timeline.aim_progress(0), Progress { elapsed: -101, span: 6 });
    let whole = Timeline { previous: update(0), current: update(65535) };
    assert_eq!(whole.draw_progress(0), Progress { elapsed: -65535, span: 65535 });
}

#[test]
fn lookup_finds_the_first() {
    let picture = WorldUpdate {
        tick: 4,
        players: vec![player(3, 1.0), player(1, 2.0), player(1, 3.0)],
        bullets: vec![bullet(0, 1, 1.0), bullet(0, 2, 2.0), bullet(2, 3, 3.0)],
    };
    assert_eq!(picture.player(1), Some(PlayerUpdate { tick: 4, player: player(1, 2.0) }));
    assert_eq!(picture.player(2), None);
    assert_eq!(picture.bullet(0), Some(bullet(0, 1, 1.0)));
    assert_eq!(picture.bullet(1), None);
}

#[test]
fn aim_starts_from_ones_own_player() {
    let mut client = Client::new(
        init(WorldUpdate { tick: 6, players: vec![player(0, 0.0), player(1, 4.0)], bullets: vec![] }),
        8,
    );
    assert_eq!(
        client.aim(),
        Some(Aim {
            progress: Progress { elapsed: 7, span: 6 },
            previous: v(4.0, 0.0),
            current: v(4.0, 0.0),
        })
    );
    client.receive(UdpClientMessage::WorldUpdate(WorldUpdate {
        tick: 12,
        players: vec![player(1, 5.0)],
        bullets: vec![],
    }));
    assert_eq!(
        client.aim(),
        Some(Aim {
            progress: Progress { elapsed: 1, span: 6 },
            previous: v(4.0, 0.0),
            current: v(5.0, 0.0),
        })
    );
    client.receive(UdpClientMessage::WorldUpdate(update(18)));
    assert_eq!(client.aim(), None);
}

#[test]
fn frame_shows_players_then_bullets() {
    let mut client = Client::new(
        init(WorldUpdate {
            tick: 6,
            players: vec![player(1, 1.0)],
            bullets: vec![bullet(2, 0, 7.0)],
        }),
        8,
    );
    client.receive(UdpClientMessage::WorldUpdate(WorldUpdate {
        tick: 12,
        players: vec![player(0, 2.0), player(1, 3.0)],
        bullets: vec![bullet(2, 0, 8.0), bullet(8, 1, 9.0)],
    }));
    let frame = client.frame();
    let white = Color { r: 255, g: 255, b: 255 };
    let red = Color { r: 255, g: 0, b: 0 };
    let disc = |x: f64, y: f64, r: f64| Disc { position: v(x, y), radius: f(r) };
    assert_eq!(frame.progress, Progress { elapsed: -4, span: 6 });
    assert_eq!(
        frame.sprites,
        vec![
            Sprite { color: red, previous: disc(2.0, 0.0, 1.0), current: disc(2.0, 0.0, 1.0) },
            Sprite { color: white, previous: disc(1.0, 0.0, 1.0), current: disc(3.0, 0.0, 1.0) },
            Sprite { color: red, previous: disc(7.0, 1.0, 0.5), current: disc(8.0, 1.0, 0.5) },
            Sprite { color: white, previous: disc(9.0, 1.0, 0.5), current: disc(9.0, 1.0, 0.5) },
        ]
    );
}

#[test]
fn events_set_the_input() {
    let mut client = Client::new(init(update(0)), 0);
    for key in vec![Key::W, Key::A, Key::S, Key::D, Key::Other] {
        assert_eq!(client.handle_event(InputEvent::Keyboard { key, down: true }), Flow::Continue);
    }
    for button in vec![Button::Left, Button::Right, Button::Other] {
        assert_eq!(client.handle_event(InputEvent::Mouse { button, down: true }), Flow::Continue);
    }
    client.handle_event(InputEvent::Aim { angle: f(0.5) });
    client.handle_event(InputEvent::Other);
    let all = PlayerInput {
        tick: 0,
        up: true,
        left: true,
        down: true,
        right: true,
        mouse_left: true,
        mouse_right: true,
        angle: f(0.5),
    };
    assert_eq!(client.input, all);
    client.handle_event(InputEvent::Keyboard { key: Key::A, down: false });
    client.handle_event(InputEvent::Mouse { button: Button::Left, down: false });
    assert_eq!(client.input, PlayerInput { left: false, mouse_left: false, ..all });
    assert_eq!(client.handle_event(InputEvent::Quit), Flow::Stop);
}

#[test]
fn each_key_has_its_direction() {
    let press = |key: Key| {
        let mut input = PlayerInput::idle();
        input.apply(InputEvent::Keyboard { key, down: true });
        input
    };
    assert_eq!(press(Key::W), PlayerInput { up: true, ..PlayerInput::idle() });
    assert_eq!(press(Key::A), PlayerInput { left: true, ..PlayerInput::idle() });
    assert_eq!(press(Key::S), PlayerInput { down: true, ..PlayerInput::idle() });
    assert_eq!(press(Key::D), PlayerInput { right: true, ..PlayerInput::idle() });
    assert_eq!(press(Key::Other), PlayerInput::idle());
}

#[test]
fn clock_ticks() {
    let mut client = Client::new(init(update(0)), 41);
    client.next_tick();
    assert_eq!(client.tick, 42);
    assert_eq!(client.input.tick, 42);
}

#[test]
fn elapsed_ticks_are_whole() {
    assert_eq!(ticks_elapsed(0, 16_666_666), 0);
    assert_eq!(ticks_elapsed(16_666_665, 16_666_666), 0);
    assert_eq!(ticks_elapsed(16_666_666, 16_666_666), 1);
    assert_eq!(ticks_elapsed(1_000_000_000, 16_666_666), 60);
    assert_eq!(wire_tick(65535), 65535);
    assert_eq!(wire_tick(65536), 0);
    assert_eq!(wire_tick(200_000), 3392);
}

#[test]
fn samples_take_the_last_input() {
    let mut queue = InputQueue::new(65535);
    let up = PlayerInput { up: true, tick: 3, ..PlayerInput::idle() };
    let left = PlayerInput { left: true, tick: 4, ..PlayerInput::idle() };
    assert_eq!(queue.sample(&vec![], false), Flow::Continue);
    assert_eq!(queue, InputQueue::new(65535));
    assert_eq!(queue.sample(&vec![up, left], false), Flow::Continue);
    assert_eq!(queue.sample(&vec![up], false), Flow::Continue);
    assert_eq!(queue.tick, 65537);
    assert_eq!(
        queue.inputs,
        vec![PlayerInput { tick: 65535, ..left }, PlayerInput { tick: 0, ..up }]
    );
}

#[test]
fn closed_input_ends_the_sampling() {
    let mut queue = InputQueue::new(5);
    let up = PlayerInput { up: true, ..PlayerInput::idle() };
    assert_eq!(queue.sample(&vec![up], true), Flow::Stop);
    assert_eq!(queue, InputQueue::new(5));
}

#[test]
fn flush_sends_everything_once() {
    let mut queue = InputQueue::new(5);
    assert_eq!(queue.flush(), None);
    let up = PlayerInput { up: true, ..PlayerInput::idle() };
    queue.sample(&vec![up], false);
    queue.sample(&vec![up], false);
    assert_eq!(
        queue.flush(),
        Some(UdpServerMessage::PlayerInput(vec![
            PlayerInput { tick: 5, ..up },
            PlayerInput { tick: 6, ..up },
        ]))
    );
    assert_eq!(queue.flush(), None);
    assert_eq!(queue.tick, 7);
}

#[test]
fn hello_is_repeated_until_answered() {
    let greeting = init(update(3));
    for _ in 0..3 {
        assert_eq!(
            on_handshake(&greeting, HandshakeEvent::HelloDue),
            HandshakeAction::Say(hello(&greeting))
        );
    }
    assert_eq!(on_handshake(&greeting, HandshakeEvent::Answered), HandshakeAction::Finish);
}
