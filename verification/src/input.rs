//! What a player does, on its way to the server.

use crate::protocol::{PlayerInput, Tick, UdpServerMessage};
use crate::scalar::{Scalar, ZERO};
use vstd::prelude::*;

verus! {

/// Whether to go on.
#[derive(Clone, Copy, Debug, PartialEq, Eq, Structural)]
pub enum Flow {
    Continue,
    Stop,
}

/// The keys that steer a player.
#[derive(Clone, Copy, Debug, PartialEq, Eq, Structural)]
pub enum Key {
    W,
    A,
    S,
    D,
    Other,
}

/// The buttons of a mouse.
#[derive(Clone, Copy, Debug, PartialEq, Eq, Structural)]
pub enum Button {
    Left,
    Right,
    Other,
}

/// What a player does at the window.
#[derive(Clone, Copy, Debug, PartialEq, Eq, Structural)]
pub enum InputEvent {
    Quit,
    /// A mouse button goes down or up.
    Mouse { button: Button, down: bool },
    /// A key goes down or up.
    Keyboard { key: Key, down: bool },
    /// The mouse points in another direction.
    Aim { angle: Scalar },
    Other,
}

/// What a player holds down after an event.
pub open spec fn after_event(input: PlayerInput, event: InputEvent) -> PlayerInput {
    match event {
        InputEvent::Mouse { button: Button::Left, down } => PlayerInput {
            mouse_left: down,
            ..input
        },
        InputEvent::Mouse { button: Button::Right, down } => PlayerInput {
            mouse_right: down,
            ..input
        },
        InputEvent::Keyboard { key: Key::W, down } => PlayerInput { up: down, ..input },
        InputEvent::Keyboard { key: Key::A, down } => PlayerInput { left: down, ..input },
        InputEvent::Keyboard { key: Key::S, down } => PlayerInput { down, ..input },
        InputEvent::Keyboard { key: Key::D, down } => PlayerInput { right: down, ..input },
        InputEvent::Aim { angle } => PlayerInput { angle, ..input },
        _ => input,
    }
}

impl PlayerInput {
    /// Nothing held down.
    pub fn idle() -> (input: PlayerInput)
        ensures
            input == (PlayerInput {
                tick: 0,
                up: false,
                left: false,
                down: false,
                right: false,
                mouse_left: false,
                mouse_right: false,
                angle: ZERO,
            }),
    {
        PlayerInput {
            tick: 0,
            up: false,
            left: false,
            down: false,
            right: false,
            mouse_left: false,
            mouse_right: false,
            angle: ZERO,
        }
    }

    /// Notes an event. The player who quits wants no more.
    pub fn apply(&mut self, event: InputEvent) -> (flow: Flow)
        ensures
            *final(self) == after_event(*old(self), event),
            event matches InputEvent::Keyboard { key: Key::W, down } ==> final(self).up == down,
            event matches InputEvent::Keyboard { key: Key::A, down } ==> final(self).left == down,
            event matches InputEvent::Keyboard { key: Key::S, down } ==> final(self).down == down,
            event matches InputEvent::Keyboard { key: Key::D, down } ==> final(self).right == down,
            event matches InputEvent::Mouse { button: Button::Left, down }
                ==> final(self).mouse_left == down,
            event matches InputEvent::Mouse { button: Button::Right, down }
                ==> final(self).mouse_right == down,
            event matches InputEvent::Aim { angle } ==> final(self).angle == angle,
            flow == (if event is Quit {
                Flow::Stop
            } else {
                Flow::Continue
            }),
    {
        match event {
            InputEvent::Quit => {
                return Flow::Stop;
            },
            InputEvent::Mouse { button, down } => match button {
                Button::Left => {
                    self.mouse_left = down;
                },
                Button::Right => {
                    self.mouse_right = down;
                },
                Button::Other => {},
            },
            InputEvent::Keyboard { key, down } => match key {
                Key::W => {
                    self.up = down;
                },
                Key::A => {
                    self.left = down;
                },
                Key::S => {
                    self.down = down;
                },
                Key::D => {
                    self.right = down;
                },
                Key::Other => {},
            },
            InputEvent::Aim { angle } => {
                self.angle = angle;
            },
            InputEvent::Other => {},
        }
        Flow::Continue
    }
}

/// How many whole ticks fit into the elapsed time.
pub fn ticks_elapsed(elapsed_nanos: u128, period_nanos: u128) -> (ticks: u128)
    requires
        period_nanos > 0,
    ensures
        ticks * period_nanos <= elapsed_nanos < (ticks + 1) * period_nanos,
{
    let ticks: u128 = elapsed_nanos / period_nanos;
    proof {
        vstd::arithmetic::div_mod::lemma_fundamental_div_mod(
            elapsed_nanos as int,
            period_nanos as int,
        );
        assert(period_nanos * ticks == ticks * period_nanos) by (nonlinear_arith);
        assert((ticks + 1) * period_nanos == ticks * period_nanos + period_nanos)
            by (nonlinear_arith);
    }
    ticks
}

/// A count of ticks as the protocol writes it: it wraps around.
pub fn wire_tick(ticks: u128) -> (tick: Tick)
    ensures
        tick == ticks % 65536,
{
    assert(ticks as u16 == ticks % 65536) by (bit_vector);
    #[verifier::truncate]
    (ticks as u16)
}

/// What waits to be sent after a sample at `tick` of what came in.
pub open spec fn after_sample(
    waiting: Seq<PlayerInput>,
    tick: int,
    drained: Seq<PlayerInput>,
    closed: bool,
) -> Seq<PlayerInput> {
    if closed || drained.len() == 0 {
        waiting
    } else {
        waiting.push(PlayerInput { tick: (tick % 65536) as u16, ..drained.last() })
    }
}

/// The inputs that wait to be sent, and the tick of the next one.
#[derive(Debug, PartialEq, Eq)]
pub struct InputQueue {
    pub tick: u128,
    pub inputs: Vec<PlayerInput>,
}

impl InputQueue {
    /// The waiting inputs are of consecutive ticks, of which the next sample takes
    /// the one after the last.
    pub open spec fn consecutive(&self) -> bool {
        &&& self.inputs@.len() <= self.tick
        &&& forall|k: int|
            0 <= k < self.inputs@.len() ==> (#[trigger] self.inputs@[k]).tick == (self.tick
                - self.inputs@.len() + k) % 65536
    }

    /// An empty queue that starts at `tick`.
    pub fn new(tick: u128) -> (queue: InputQueue)
        ensures
            queue.tick == tick,
            queue.inputs@ == Seq::<PlayerInput>::empty(),
            queue.consecutive(),
    {
        InputQueue { tick, inputs: Vec::new() }
    }

    /// Takes the last of the inputs that came in since the last sample, and lets
    /// one tick pass. Without one there is no sample. Once inputs can come in no
    /// more, it is time to stop.
    pub fn sample(&mut self, drained: &Vec<PlayerInput>, closed: bool) -> (flow: Flow)
        requires
            !closed && drained@.len() > 0 ==> old(self).tick < u128::MAX,
        ensures
            old(self).consecutive() ==> final(self).consecutive(),
            final(self).inputs@ == after_sample(
                old(self).inputs@,
                old(self).tick as int,
                drained@,
                closed,
            ),
            closed ==> flow == Flow::Stop && *final(self) == *old(self),
            !closed ==> flow == Flow::Continue,
            !closed && drained@.len() == 0 ==> *final(self) == *old(self),
            !closed && drained@.len() > 0 ==> final(self).tick == old(self).tick + 1,
            !closed && drained@.len() > 0 ==> final(self).inputs@ == old(self).inputs@.push(
                (PlayerInput { tick: (old(self).tick % 65536) as u16, ..drained@.last() }),
            ),
    {
        if closed {
            return Flow::Stop;
        }
        if drained.len() > 0 {
            let input = drained[drained.len() - 1];
            self.inputs.push(PlayerInput { tick: wire_tick(self.tick), ..input });
            self.tick = self.tick + 1;
        }
        Flow::Continue
    }

    /// Puts all waiting inputs into one message. Without any there is none.
    pub fn flush(&mut self) -> (message: Option<UdpServerMessage>)
        ensures
            final(self).consecutive(),
            final(self).tick == old(self).tick,
            final(self).inputs@ == Seq::<PlayerInput>::empty(),
            match message {
                None => old(self).inputs@.len() == 0,
                Some(UdpServerMessage::PlayerInput(inputs)) => inputs@ == old(self).inputs@
                    && inputs@.len() > 0,
                Some(UdpServerMessage::Init(_)) => false,
            },
    {
        if self.inputs.len() == 0 {
            return None;
        }
        let mut inputs: Vec<PlayerInput> = Vec::new();
        std::mem::swap(&mut self.inputs, &mut inputs);
        Some(UdpServerMessage::PlayerInput(inputs))
    }
}

} // verus!
