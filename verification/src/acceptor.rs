//! The listener: where the server is bound, and whom it lets in.
//!
//! Binding a socket and waiting for clients is the work of whoever drives
//! the acceptor. The acceptor says which address to bind, turns the outcome
//! of the attempt into the answer for whoever asked to start the server, and
//! makes a [`Connection`] for every client that arrives while it listens.

use crate::connection::{Connection, ConnectionModel};
use crate::text::{decimal, push_decimal};
use vstd::prelude::*;

verus! {

/// The loopback address with the given port.
pub open spec fn loopback(port: u16) -> Seq<char> {
    "127.0.0.1:"@ + decimal(port as nat)
}

/// What is answered when the server has started on `port`.
pub open spec fn confirmation(port: u16) -> Seq<char> {
    "WebSocket server listening on ws://"@ + loopback(port)
}

/// What is answered when `address` could not be bound because of `cause`.
pub open spec fn refusal(address: Seq<char>, cause: Seq<char>) -> Seq<char> {
    "cannot listen on "@ + address + ": "@ + cause
}

/// The loopback address with the given port, as it is handed to the
/// operating system. Port zero asks for any free port.
pub fn loopback_address(port: u16) -> (address: String)
    ensures
        address@ == loopback(port),
{
    let mut address = String::new();
    address.append("127.0.0.1:");
    push_decimal(&mut address, port as u64);
    assert(address@ =~= loopback(port));
    address
}

/// The requested address could not be bound.
#[derive(Debug, PartialEq, Eq)]
pub struct BindError {
    address: String,
    cause: String,
}

impl BindError {
    /// The address that was asked for.
    pub closed spec fn address_text(&self) -> Seq<char> {
        self.address@
    }

    /// Why it could not be bound, in the words of the operating system.
    pub closed spec fn cause_text(&self) -> Seq<char> {
        self.cause@
    }

    /// The address that was asked for.
    pub fn address(&self) -> (address: &str)
        ensures
            address@ == self.address_text(),
    {
        self.address.as_str()
    }

    /// Why it could not be bound, in the words of the operating system.
    pub fn cause(&self) -> (cause: &str)
        ensures
            cause@ == self.cause_text(),
    {
        self.cause.as_str()
    }

    /// The error as one line of text.
    pub fn message(&self) -> (text: String)
        ensures
            text@ == refusal(self.address_text(), self.cause_text()),
    {
        let mut text = String::new();
        text.append("cannot listen on ");
        text.append(self.address.as_str());
        text.append(": ");
        text.append(self.cause.as_str());
        assert(text@ =~= refusal(self.address_text(), self.cause_text()));
        text
    }
}

/// The mathematical value of an [`Acceptor`].
pub struct AcceptorModel {
    /// The port that the listener is bound to.
    pub port: u16,
    /// Whether clients are still let in.
    pub accepting: bool,
}

/// A listener that is bound to a port of the loopback address.
#[derive(Debug, PartialEq, Eq)]
pub struct Acceptor {
    port: u16,
    accepting: bool,
}

impl View for Acceptor {
    type V = AcceptorModel;

    closed spec fn view(&self) -> AcceptorModel {
        AcceptorModel { port: self.port, accepting: self.accepting }
    }
}

impl Acceptor {
    /// Turns the outcome of binding the loopback address with the port
    /// `requested` into a listener or an error.
    ///
    /// `outcome` holds the port that the operating system assigned, or its
    /// reason for refusing. A refusal is handed on as it is, with the address
    /// that was asked for; nothing is tried again.
    pub fn start(requested: u16, outcome: Result<u16, String>) -> (started: Result<
        Acceptor,
        BindError,
    >)
        ensures
            match outcome {
                Ok(assigned) => started is Ok && started->Ok_0@ == (AcceptorModel {
                    port: assigned,
                    accepting: true,
                }),
                Err(cause) => started is Err && started->Err_0.address_text() == loopback(requested)
                    && started->Err_0.cause_text() == cause@,
            },
    {
        match outcome {
            Ok(assigned) => Ok(Acceptor { port: assigned, accepting: true }),
            Err(cause) => Err(BindError { address: loopback_address(requested), cause }),
        }
    }

    /// The port that the listener is bound to.
    pub fn port(&self) -> (port: u16)
        ensures
            port == self@.port,
    {
        self.port
    }

    /// Whether clients are still let in.
    pub fn is_accepting(&self) -> (accepting: bool)
        ensures
            accepting == self@.accepting,
    {
        self.accepting
    }

    /// The address that the listener is bound to.
    pub fn address(&self) -> (address: String)
        ensures
            address@ == loopback(self@.port),
    {
        loopback_address(self.port)
    }

    /// The answer for whoever asked to start the server: it names the port
    /// that was assigned.
    pub fn confirmation(&self) -> (text: String)
        ensures
            text@ == confirmation(self@.port),
    {
        let mut text = String::new();
        text.append("WebSocket server listening on ws://");
        text.append(self.address().as_str());
        assert(text@ =~= confirmation(self@.port));
        text
    }

    /// Lets in the client at `peer`: while the listener works, every client
    /// gets a connection of its own, whose handshake is still to come.
    /// Whatever becomes of that connection, the listener stays as it is.
    pub fn accept(&self, peer: String) -> (connection: Option<Connection>)
        ensures
            match connection {
                Some(c) => {
                    &&& self@.accepting
                    &&& c@ == ConnectionModel::fresh()
                    &&& c@.wf()
                    &&& c.peer_address() == peer@
                },
                None => !self@.accepting,
            },
    {
        if self.accepting {
            Some(Connection::new(peer))
        } else {
            None
        }
    }

    /// Records that the listening socket itself has failed: no client is let
    /// in from now on. The connections that exist go on.
    pub fn listener_failed(&mut self)
        ensures
            final(self)@ == (AcceptorModel { port: old(self)@.port, accepting: false }),
    {
        self.accepting = false;
    }
}

} // verus!
