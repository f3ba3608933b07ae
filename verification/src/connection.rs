//! What the tasks at a connection do: which messages a reading task hands over, what
//! a writing task writes, and when they end.

use crate::protocol::{check_packet, packet_size, PacketSize};
use vstd::prelude::*;

verus! {

/// What can happen to a task that reads messages from a connection.
#[derive(Clone, Debug, PartialEq, Eq)]
pub enum ConnectionEvent<M> {
    /// A packet came, with the message that it was read as, if it was.
    Read { num_bytes: usize, message: Option<M> },
    /// Nothing can be read any more.
    ReadFailed,
    /// Nobody takes the messages any more.
    HandOverFailed,
}

/// What the task has to do next.
#[derive(Clone, Debug, PartialEq, Eq)]
pub enum ConnectionAction<M> {
    /// Hand the message over, and read on.
    Forward(M),
    /// Say that the connection has ended, and end.
    HangUp,
}

/// What comes of an event, where packets are read into a buffer of `limit` bytes: a
/// complete packet that could be read as a message is handed over, and everything
/// else ends the connection.
pub open spec fn reaction<M>(event: ConnectionEvent<M>, limit: usize) -> ConnectionAction<M> {
    match event {
        ConnectionEvent::Read { num_bytes, message: Some(message) } => if packet_size(
            num_bytes,
            limit,
        ) == PacketSize::Complete {
            ConnectionAction::Forward(message)
        } else {
            ConnectionAction::HangUp
        },
        _ => ConnectionAction::HangUp,
    }
}

/// Reacts to an event.
pub fn react<M>(event: ConnectionEvent<M>, limit: usize) -> (action: ConnectionAction<M>)
    ensures
        action == reaction(event, limit),
{
    match event {
        ConnectionEvent::Read { num_bytes, message: Some(message) } => match check_packet(
            num_bytes,
            limit,
        ) {
            PacketSize::Complete => ConnectionAction::Forward(message),
            PacketSize::Closed | PacketSize::TooBig => ConnectionAction::HangUp,
        },
        _ => ConnectionAction::HangUp,
    }
}

/// The events that end a connection.
pub open spec fn hangs_up<M>(limit: usize) -> spec_fn(ConnectionEvent<M>) -> bool {
    |event: ConnectionEvent<M>| reaction(event, limit) is HangUp
}

/// What a task signals as these events happen to it: each message that it hands
/// over, and `None` when the connection has ended.
pub open spec fn signals<M>(events: Seq<ConnectionEvent<M>>, limit: usize) -> Seq<Option<M>>
    decreases events.len(),
{
    if events.len() == 0 {
        Seq::empty()
    } else {
        match reaction(events[0], limit) {
            ConnectionAction::Forward(message) => seq![Some(message)] + signals(
                events.drop_first(),
                limit,
            ),
            ConnectionAction::HangUp => seq![None],
        }
    }
}

/// What can happen to a task that writes messages to a connection.
#[derive(Clone, Debug, PartialEq, Eq)]
pub enum WriterEvent<M> {
    /// The connection is new, and the other side is to be greeted.
    Start(M),
    /// There is a message for the other side.
    Message(M),
    /// The last message could not be written.
    WriteFailed,
    /// No more messages will come.
    ChannelClosed,
}

/// What the task has to do next.
#[derive(Clone, Debug, PartialEq, Eq)]
pub enum WriterAction<M> {
    /// Write the message, and wait for the next one.
    Write(M),
    /// End.
    End,
}

/// The message that an event asks to be written, if it does.
pub open spec fn outgoing<M>(event: WriterEvent<M>) -> Option<M> {
    match event {
        WriterEvent::Start(message) | WriterEvent::Message(message) => Some(message),
        WriterEvent::WriteFailed | WriterEvent::ChannelClosed => None,
    }
}

/// Reacts to an event: greeting and messages are written, everything else ends the
/// task.
pub fn write_next<M>(event: WriterEvent<M>) -> (action: WriterAction<M>)
    ensures
        action == match outgoing(event) {
            Some(message) => WriterAction::Write(message),
            None => WriterAction::End,
        },
{
    match event {
        WriterEvent::Start(message) | WriterEvent::Message(message) => WriterAction::Write(message),
        WriterEvent::WriteFailed | WriterEvent::ChannelClosed => WriterAction::End,
    }
}

/// The events that end a writing task.
pub open spec fn ends_writing<M>() -> spec_fn(WriterEvent<M>) -> bool {
    |event: WriterEvent<M>| outgoing(event) is None
}

/// What a task sets out to write as these events happen to it.
pub open spec fn written<M>(events: Seq<WriterEvent<M>>) -> Seq<M>
    decreases events.len(),
{
    if events.len() == 0 {
        Seq::empty()
    } else {
        match outgoing(events[0]) {
            Some(message) => seq![message] + written(events.drop_first()),
            None => Seq::empty(),
        }
    }
}

} // verus!
