//! Real-time broadcast of timer events to network subscribers.
//!
//! A timer runs elsewhere. Whenever it starts, splits, pauses or resets, the
//! [`sink`] turns the action into an [`event`] and publishes it on the
//! [`bus`]. Every client that is connected holds a subscription to the bus;
//! its [`connection`] relays what is published to it as one text message per
//! event, in the format of [`wire`], and keeps the session alive with
//! heartbeats in between. The [`acceptor`] lets the clients in.
//!
//! Nothing here reads a clock, opens a socket or waits. Whoever drives the
//! library does that, and tells it what happened; the library decides what
//! is to be done and says so. What it decides is proved: the contracts of
//! the functions say what one call does, and [`bus_laws`] and
//! [`connection_laws`] say what holds over any number of calls.

pub mod acceptor;
pub mod bus;
pub mod bus_laws;
pub mod command;
pub mod connection;
pub mod connection_laws;
pub mod event;
pub mod sink;
pub mod text;
pub mod wire;
