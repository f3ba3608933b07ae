use game::connection::{
    write_next, ConnectionAction, ConnectionEvent, WriterAction, WriterEvent,
};
use game::entity::Address;
use game::protocol::{
    check_packet, PacketSize, PlayerInput, ServerInit, TcpClientMessage, TcpServerMessage,
    Timestamp, UdpClientMessage, UdpServerMessage,
};
use game::server::{on_connection, Server, ServerAction, ServerEvent, SERVER_PACKET_LIMIT};
use game::slots::Handle;
use game::world::Welcome;

const FROM: Address = Address::V4 { ipv4: 0x0a00_0001, port: 4000 };

fn server() -> Server {
    Server::new(60, Timestamp { secs: 3, nanos: 4 })
}

fn connect(server: &mut Server) -> Welcome {
    match server.handle(ServerEvent::Connected) {
        ServerAction::Greet(welcome) => welcome,
        other => panic!("{:?}", other),
    }
}

fn datagram(num_bytes: usize, message: Option<UdpServerMessage>) -> ServerEvent {
    ServerEvent::Datagram { num_bytes, from: FROM, message }
}

#[test]
fn packets_are_judged_by_their_size() {
    assert_eq!(check_packet(0, 64), PacketSize::Closed);
    assert_eq!(check_packet(1, 64), PacketSize::Complete);
    assert_eq!(check_packet(63, 64), PacketSize::Complete);
    assert_eq!(check_packet(64, 64), PacketSize::TooBig);
    assert_eq!(check_packet(4095, 4096), PacketSize::Complete);
    assert_eq!(check_packet(4096, 4096), PacketSize::TooBig);
}

#[test]
fn server_starts_with_an_empty_world() {
    let server = server();
    assert!(server.world.player_rows().is_empty());
    assert_eq!(server.tick_rate, 60);
    assert_eq!(server.tick_zero, Timestamp { secs: 3, nanos: 4 });
}

#[test]
fn clients_are_greeted_until_the_world_is_full() {
    let mut server = server();
    for n in 0..16 {
        let welcome = connect(&mut server);
        assert_eq!(welcome.init.id, n);
        assert_eq!(welcome.init.tick_rate, 60);
        assert_eq!(welcome.init.tick_zero, Timestamp { secs: 3, nanos: 4 });
        assert_eq!(welcome.recipients.len(), n as usize);
    }
    assert_eq!(server.handle(ServerEvent::Connected), ServerAction::Reject);
}

#[test]
fn players_part() {
    let mut server = server();
    let a = connect(&mut server);
    let b = connect(&mut server);
    match server.handle(ServerEvent::Disconnected(a.handle)) {
        ServerAction::PartWith(farewell) => {
            assert_eq!(farewell.recipients, vec![b.handle]);
            assert_eq!(farewell.left, TcpClientMessage::PlayerLeft(0));
        }
        other => panic!("{:?}", other),
    }
    assert_eq!(server.world.player_rows().len(), 1);
}

#[test]
fn handshake_leads_to_snapshots() {
    let mut server = server();
    let welcome = connect(&mut server);
    match server.handle(ServerEvent::SnapshotDue) {
        ServerAction::Broadcast { targets, .. } => assert!(targets.is_empty()),
        other => panic!("{:?}", other),
    }
    let hello = game::client::hello(&welcome.init);
    assert_eq!(hello, UdpServerMessage::Init(ServerInit { random_bytes: welcome.init.random_bytes }));
    assert_eq!(
        server.handle(datagram(20, Some(hello))),
        ServerAction::Bound(welcome.handle, FROM)
    );
    match server.handle(ServerEvent::SnapshotDue) {
        ServerAction::Broadcast { message, targets } => {
            assert_eq!(targets, vec![FROM]);
            assert_eq!(message, UdpClientMessage::WorldUpdate(server.world.snapshot()));
        }
        other => panic!("{:?}", other),
    }
}

#[test]
fn inputs_steer_after_the_handshake_only() {
    let mut server = server();
    let welcome = connect(&mut server);
    let inputs = vec![PlayerInput { up: true, ..PlayerInput::idle() }];
    let message = UdpServerMessage::PlayerInput(inputs);
    server.handle(datagram(30, Some(message.clone())));
    assert_eq!(server.world.player(welcome.handle).unwrap().input.y, 0);
    server.handle(datagram(20, Some(game::client::hello(&welcome.init))));
    assert_eq!(server.handle(datagram(30, Some(message))), ServerAction::Continue);
    assert_eq!(server.world.player(welcome.handle).unwrap().input.y, -1);
}

#[test]
fn unreadable_datagrams_are_skipped() {
    let mut server = server();
    connect(&mut server);
    let before = server.world.player_rows();
    assert_eq!(server.handle(datagram(7, None)), ServerAction::Continue);
    assert_eq!(server.world.player_rows(), before);
}

#[test]
fn server_stops() {
    let mut server = server();
    let hello = game::client::hello(&connect(&mut server).init);
    let before = server.world.player_rows();
    for event in vec![
        ServerEvent::AcceptFailed,
        ServerEvent::MessagesEnded,
        ServerEvent::ReceiveFailed,
        datagram(0, Some(hello.clone())),
        datagram(SERVER_PACKET_LIMIT, Some(hello)),
    ] {
        assert_eq!(server.handle(event), ServerAction::Stop);
    }
    assert_eq!(server.world.player_rows(), before);
}

#[test]
fn messages_are_reported() {
    let mut server = server();
    let handle = Handle { slot: 0, generation: 0 };
    let message = TcpServerMessage::Test(4);
    assert_eq!(
        server.handle(ServerEvent::Message(handle, message)),
        ServerAction::Report(handle, message)
    );
}

#[test]
fn hello_of_a_stranger_binds_nobody() {
    let mut server = server();
    let welcome = connect(&mut server);
    let mut random_bytes = welcome.init.random_bytes;
    random_bytes[15] ^= 1;
    let hello = UdpServerMessage::Init(ServerInit { random_bytes });
    assert_eq!(server.handle(datagram(20, Some(hello))), ServerAction::Continue);
    assert_eq!(server.world.player(welcome.handle).unwrap().udp_addr, None);
}

fn read(num_bytes: usize, message: Option<TcpServerMessage>) -> ConnectionEvent<TcpServerMessage> {
    ConnectionEvent::Read { num_bytes, message }
}

#[test]
fn connection_forwards_what_it_can_read() {
    let message = TcpServerMessage::Test(7);
    for num_bytes in vec![1, 5, SERVER_PACKET_LIMIT - 1] {
        let event = read(num_bytes, Some(message));
        assert_eq!(on_connection(event), ConnectionAction::Forward(message));
    }
}

#[test]
fn connection_hangs_up() {
    let message = TcpServerMessage::Test(7);
    for event in vec![
        read(0, Some(message)),
        read(SERVER_PACKET_LIMIT, Some(message)),
        read(5, None),
        ConnectionEvent::ReadFailed,
        ConnectionEvent::HandOverFailed,
    ] {
        assert_eq!(on_connection(event), ConnectionAction::HangUp);
    }
}

#[test]
fn messages_come_before_the_end() {
    let mut events = vec![
        read(5, Some(TcpServerMessage::Test(1))),
        read(5, Some(TcpServerMessage::Test(2))),
        read(5, None),
        read(5, Some(TcpServerMessage::Test(3))),
        ConnectionEvent::ReadFailed,
    ]
    .into_iter();
    let mut signals = vec![];
    loop {
        match on_connection(events.next().unwrap()) {
            ConnectionAction::Forward(message) => signals.push(Some(message)),
            ConnectionAction::HangUp => break,
        }
    }
    signals.push(None);
    assert_eq!(
        signals,
        vec![Some(TcpServerMessage::Test(1)), Some(TcpServerMessage::Test(2)), None]
    );
}

/// What a task writes as these events happen to it.
fn write_all(events: Vec<WriterEvent<TcpClientMessage>>) -> Vec<TcpClientMessage> {
    let mut written = vec![];
    for event in events {
        match write_next(event) {
            WriterAction::Write(message) => written.push(message),
            WriterAction::End => break,
        }
    }
    written
}

#[test]
fn greeting_is_written_first() {
    let greeting = TcpClientMessage::Init(connect(&mut server()).init);
    let joined = TcpClientMessage::PlayerJoined(1);
    let left = TcpClientMessage::PlayerLeft(1);
    let written = write_all(vec![
        WriterEvent::Start(greeting.clone()),
        WriterEvent::Message(joined.clone()),
        WriterEvent::Message(left.clone()),
        WriterEvent::ChannelClosed,
        WriterEvent::Message(joined.clone()),
    ]);
    assert_eq!(written, vec![greeting, joined, left]);
}

#[test]
fn nothing_is_written_after_a_failure() {
    let joined = TcpClientMessage::PlayerJoined(1);
    let written = write_all(vec![
        WriterEvent::Message(joined.clone()),
        WriterEvent::WriteFailed,
        WriterEvent::Message(TcpClientMessage::PlayerLeft(1)),
    ]);
    assert_eq!(written, vec![joined]);
}
