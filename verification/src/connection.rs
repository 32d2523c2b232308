//! One client's session, from the handshake to the end.
//!
//! A connection does no input or output of its own. Whoever drives it tells
//! it what happened, one [`Input`] at a time, and does what it answers, one
//! [`Action`] at a time:
//!
//! ```text
//! Handshaking --Upgraded--> (greeting sent) --Written--> Active
//!      |                          |                         |
//!  UpgradeFailed              WriteFailed     WriteFailed, Close, bus closed
//!      v                          v                         v
//!    Closed <------------------ Closed <---Finished--- Closing
//! ```
//!
//! While it is `Active`, two tasks feed it: a ticker that reports `Tick`,
//! and a relay that reports what the client sent and asks it to `Relay` what
//! waits in its subscription. As soon as either task has to end, the
//! connection answers `Shutdown`, once, and nothing but `Idle` after that.

use crate::bus::{BusModel, Delivery, DeliveryModel, EventBus, Subscription};
use crate::event::{Event, EventModel};
use crate::wire::{encode, frame};
use vstd::prelude::*;

verus! {

/// Seconds between two heartbeats of the keep-alive ticker, unless another
/// interval is asked for.
pub const KEEP_ALIVE_SECONDS: u64 = 30;

/// Where a connection stands in its life.
#[derive(Clone, Copy, Debug, PartialEq, Eq, Structural)]
pub enum Phase {
    /// The protocol upgrade, and the greeting that follows it, are under way.
    Handshaking,
    /// The ticker and the relay run.
    Active,
    /// One task has ended; the other is being cancelled and the transport
    /// closed. Nothing is sent any more.
    Closing,
    /// The end.
    Closed,
}

/// What the client sent, as far as the connection cares.
#[derive(Clone, Copy, Debug, PartialEq, Eq, Structural)]
pub enum Inbound {
    /// A text message. It is taken and ignored.
    Text,
    /// Any other message that asks for nothing: binary data, a ping, a pong.
    Other,
    /// The client closes the session.
    Close,
    /// Reading failed, or the transport ended.
    Failed,
}

/// What happened to a connection.
#[derive(Clone, Copy, Debug, PartialEq, Eq)]
pub enum Input {
    /// The protocol upgrade succeeded, at the time `now`.
    Upgraded { now: u64 },
    /// The protocol upgrade failed.
    UpgradeFailed,
    /// The frame last handed out was written to the transport.
    Written,
    /// A frame could not be written to the transport.
    WriteFailed,
    /// The keep-alive interval has passed; it is `now`.
    Tick { now: u64 },
    /// Something may wait in the subscription.
    Relay,
    /// The client sent something.
    Received(Inbound),
    /// The transport is closed and the tasks have ended.
    Finished,
}

/// The mathematical value of an [`Action`].
pub enum ActionModel {
    Send(Seq<char>),
    Idle,
    Shutdown,
    Discard,
}

/// What the driver of a connection is to do next.
#[derive(Debug, PartialEq, Eq)]
pub enum Action {
    /// Write this frame to the client as one text message, and report
    /// `Written` or `WriteFailed`.
    Send(String),
    /// Nothing.
    Idle,
    /// Cancel the task that still runs, close the transport, and report
    /// `Finished`.
    Shutdown,
    /// Drop the transport: the session never became active.
    Discard,
}

impl View for Action {
    type V = ActionModel;

    open spec fn view(&self) -> ActionModel {
        match self {
            Action::Send(text) => ActionModel::Send(text@),
            Action::Idle => ActionModel::Idle,
            Action::Shutdown => ActionModel::Shutdown,
            Action::Discard => ActionModel::Discard,
        }
    }
}

/// The mathematical value of a [`Connection`].
pub struct ConnectionModel {
    pub phase: Phase,
    /// The greeting was handed out and its fate is not yet known.
    pub greeting: bool,
    /// The number of the subscription that the connection holds.
    pub subscription: Option<u64>,
}

/// A connection, the bus it reads from, and what is to be done, after one
/// input.
pub struct Outcome {
    pub connection: ConnectionModel,
    pub bus: BusModel,
    pub action: ActionModel,
}

impl ConnectionModel {
    /// A connection whose handshake has not yet ended.
    pub open spec fn fresh() -> ConnectionModel {
        ConnectionModel { phase: Phase::Handshaking, greeting: false, subscription: None }
    }

    /// A greeting is awaited only during the handshake, and a subscription is
    /// held from the greeting on for as long as the connection is active.
    pub open spec fn wf(self) -> bool {
        &&& self.greeting ==> self.phase == Phase::Handshaking
        &&& self.subscription is Some <==> (self.phase == Phase::Active || self.greeting)
    }

    /// Nothing is sent any more.
    pub open spec fn is_over(self) -> bool {
        self.phase == Phase::Closing || self.phase == Phase::Closed
    }

    /// What the subscription of the connection gives next.
    pub open spec fn waiting(self, bus: BusModel) -> DeliveryModel {
        match self.subscription {
            Some(id) => bus.next(id),
            None => DeliveryModel::Closed,
        }
    }

    /// Nothing changes and nothing is to be done.
    pub open spec fn stay(self, bus: BusModel) -> Outcome {
        Outcome { connection: self, bus, action: ActionModel::Idle }
    }

    /// The connection sends `text` and stays as it is.
    pub open spec fn send(self, bus: BusModel, text: Seq<char>) -> Outcome {
        Outcome { connection: self, bus, action: ActionModel::Send(text) }
    }

    /// The connection gives up its subscription and goes to `phase`.
    pub open spec fn leave(self, bus: BusModel, phase: Phase, action: ActionModel) -> Outcome {
        Outcome {
            connection: ConnectionModel { phase, greeting: false, subscription: None },
            bus: match self.subscription {
                Some(id) => bus.unsubscribe(id),
                None => bus,
            },
            action,
        }
    }

    /// One input during the handshake, before the greeting.
    ///
    /// A successful upgrade subscribes to the bus and greets the client with
    /// a heartbeat that carries the current time. A failed upgrade ends the
    /// connection, and so does a bus that has no subscription left to give.
    pub open spec fn upgrade(self, bus: BusModel, input: Input) -> Outcome {
        match input {
            Input::Upgraded { now } => if bus.issued < u64::MAX {
                Outcome {
                    connection: ConnectionModel {
                        phase: Phase::Handshaking,
                        greeting: true,
                        subscription: Some(bus.issued as u64),
                    },
                    bus: bus.subscribe(),
                    action: ActionModel::Send(frame(EventModel::Heartbeat { timestamp: now })),
                }
            } else {
                self.leave(bus, Phase::Closed, ActionModel::Discard)
            },
            Input::UpgradeFailed => self.leave(bus, Phase::Closed, ActionModel::Discard),
            _ => self.stay(bus),
        }
    }

    /// One input while the fate of the greeting is awaited: once it is
    /// written the connection is active; if it cannot be written the
    /// connection is closed at once.
    pub open spec fn greet(self, bus: BusModel, input: Input) -> Outcome {
        match input {
            Input::Written => Outcome {
                connection: ConnectionModel { phase: Phase::Active, greeting: false, ..self },
                bus,
                action: ActionModel::Idle,
            },
            Input::WriteFailed => self.leave(bus, Phase::Closed, ActionModel::Discard),
            _ => self.stay(bus),
        }
    }

    /// One input while the connection is active.
    ///
    /// A tick sends a heartbeat with the current time. A relay sends the
    /// oldest event that waits; being told of missed events changes
    /// nothing, and a closed bus ends the connection. What the client sends
    /// is ignored, unless it closes the session or reading fails. A failed
    /// write ends the connection.
    pub open spec fn serve(self, bus: BusModel, input: Input) -> Outcome {
        match input {
            Input::Tick { now } => self.send(
                bus,
                frame(EventModel::Heartbeat { timestamp: now }),
            ),
            Input::Relay => match self.waiting(bus) {
                DeliveryModel::Event(event) => Outcome {
                    connection: self,
                    bus: bus.advance(self.subscription->0),
                    action: ActionModel::Send(frame(event)),
                },
                DeliveryModel::Lagged(_) => Outcome {
                    connection: self,
                    bus: bus.advance(self.subscription->0),
                    action: ActionModel::Idle,
                },
                DeliveryModel::Empty => self.stay(bus),
                DeliveryModel::Closed => self.leave(bus, Phase::Closing, ActionModel::Shutdown),
            },
            Input::Received(Inbound::Close) => self.leave(
                bus,
                Phase::Closing,
                ActionModel::Shutdown,
            ),
            Input::Received(Inbound::Failed) => self.leave(
                bus,
                Phase::Closing,
                ActionModel::Shutdown,
            ),
            Input::WriteFailed => self.leave(bus, Phase::Closing, ActionModel::Shutdown),
            _ => self.stay(bus),
        }
    }

    /// One input while the connection is closing: only the report that the
    /// transport is closed counts.
    pub open spec fn wind_down(self, bus: BusModel, input: Input) -> Outcome {
        match input {
            Input::Finished => Outcome {
                connection: ConnectionModel { phase: Phase::Closed, ..self },
                bus,
                action: ActionModel::Idle,
            },
            _ => self.stay(bus),
        }
    }

    /// The connection and its bus after one input, and what is to be done.
    pub open spec fn step(self, bus: BusModel, input: Input) -> Outcome {
        match self.phase {
            Phase::Handshaking => if self.greeting {
                self.greet(bus, input)
            } else {
                self.upgrade(bus, input)
            },
            Phase::Active => self.serve(bus, input),
            Phase::Closing => self.wind_down(bus, input),
            Phase::Closed => self.stay(bus),
        }
    }
}

/// One client's session.
pub struct Connection {
    peer: String,
    phase: Phase,
    greeting: bool,
    subscription: Option<Subscription>,
}

impl View for Connection {
    type V = ConnectionModel;

    closed spec fn view(&self) -> ConnectionModel {
        ConnectionModel {
            phase: self.phase,
            greeting: self.greeting,
            subscription: match self.subscription {
                Some(s) => Some(s@),
                None => None,
            },
        }
    }
}

impl Connection {
    /// The address of the client.
    pub closed spec fn peer_address(&self) -> Seq<char> {
        self.peer@
    }

    /// A connection to the client at `peer`, whose handshake has not yet
    /// ended.
    pub fn new(peer: String) -> (connection: Connection)
        ensures
            connection@ == ConnectionModel::fresh(),
            connection@.wf(),
            connection.peer_address() == peer@,
    {
        Connection { peer, phase: Phase::Handshaking, greeting: false, subscription: None }
    }

    /// The address of the client.
    pub fn peer(&self) -> (peer: &str)
        ensures
            peer@ == self.peer_address(),
    {
        self.peer.as_str()
    }

    /// Where the connection stands in its life.
    pub fn phase(&self) -> (phase: Phase)
        ensures
            phase == self@.phase,
    {
        self.phase
    }

    /// The number of the subscription that the connection holds.
    pub fn subscription_id(&self) -> (id: Option<u64>)
        ensures
            id == self@.subscription,
    {
        match &self.subscription {
            Some(s) => Some(s.id()),
            None => None,
        }
    }

    /// Whether `Relay` would do anything: the connection is active and its
    /// subscription has something to give.
    pub fn has_work(&self, bus: &EventBus) -> (work: bool)
        requires
            bus.wf(),
        ensures
            work == (self@.phase == Phase::Active && !(self@.waiting(bus@) is Empty)),
    {
        match self.phase {
            Phase::Active => match &self.subscription {
                Some(subscription) => bus.has_news(subscription),
                None => true,
            },
            _ => false,
        }
    }

    fn leave(&mut self, bus: &mut EventBus, phase: Phase)
        requires
            old(bus).wf(),
        ensures
            final(bus).wf(),
            final(self).peer_address() == old(self).peer_address(),
            final(self)@ == old(self)@.leave(old(bus)@, phase, ActionModel::Idle).connection,
            final(bus)@ == old(self)@.leave(old(bus)@, phase, ActionModel::Idle).bus,
    {
        self.phase = phase;
        self.greeting = false;
        match self.subscription.take() {
            Some(subscription) => {
                bus.unsubscribe(subscription);
            },
            None => {},
        }
    }

    /// Takes one input and says what is to be done.
    pub fn step(&mut self, bus: &mut EventBus, input: Input) -> (action: Action)
        requires
            old(bus).wf(),
            old(self)@.wf(),
        ensures
            final(bus).wf(),
            final(self)@.wf(),
            final(self).peer_address() == old(self).peer_address(),
            final(self)@ == old(self)@.step(old(bus)@, input).connection,
            final(bus)@ == old(self)@.step(old(bus)@, input).bus,
            action@ == old(self)@.step(old(bus)@, input).action,
    {
        match self.phase {
            Phase::Handshaking => if self.greeting {
                match input {
                    Input::Written => {
                        self.phase = Phase::Active;
                        self.greeting = false;
                        Action::Idle
                    },
                    Input::WriteFailed => {
                        self.leave(bus, Phase::Closed);
                        Action::Discard
                    },
                    _ => Action::Idle,
                }
            } else {
                match input {
                    Input::Upgraded { now } => match bus.subscribe() {
                        Some(subscription) => {
                            self.subscription = Some(subscription);
                            self.greeting = true;
                            Action::Send(encode(&Event::Heartbeat { timestamp: now }))
                        },
                        None => {
                            self.leave(bus, Phase::Closed);
                            Action::Discard
                        },
                    },
                    Input::UpgradeFailed => {
                        self.leave(bus, Phase::Closed);
                        Action::Discard
                    },
                    _ => Action::Idle,
                }
            },
            Phase::Active => match input {
                Input::Tick { now } => Action::Send(encode(&Event::Heartbeat { timestamp: now })),
                Input::Relay => {
                    let delivery = match &self.subscription {
                        Some(subscription) => bus.receive(subscription),
                        None => Delivery::Closed,
                    };
                    match delivery {
                        Delivery::Event(event) => Action::Send(encode(&event)),
                        Delivery::Lagged(_) => Action::Idle,
                        Delivery::Empty => {
                            proof {
                                let id = old(self)@.subscription->0;
                                assert(old(bus)@.subscribers.insert(
                                    id,
                                    old(bus)@.subscribers[id],
                                ) =~= old(bus)@.subscribers);
                            }
                            Action::Idle
                        },
                        Delivery::Closed => {
                            proof {
                                let id = old(self)@.subscription->0;
                                if old(bus)@.subscribers.contains_key(id) {
                                    assert(old(bus)@.subscribers.insert(
                                        id,
                                        old(bus)@.subscribers[id],
                                    ) =~= old(bus)@.subscribers);
                                }
                            }
                            self.leave(bus, Phase::Closing);
                            Action::Shutdown
                        },
                    }
                },
                Input::Received(Inbound::Close) => {
                    self.leave(bus, Phase::Closing);
                    Action::Shutdown
                },
                Input::Received(Inbound::Failed) => {
                    self.leave(bus, Phase::Closing);
                    Action::Shutdown
                },
                Input::WriteFailed => {
                    self.leave(bus, Phase::Closing);
                    Action::Shutdown
                },
                _ => Action::Idle,
            },
            Phase::Closing => match input {
                Input::Finished => {
                    self.phase = Phase::Closed;
                    Action::Idle
                },
                _ => Action::Idle,
            },
            Phase::Closed => Action::Idle,
        }
    }
}

} // verus!
