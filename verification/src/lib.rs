//! Core of a small in-process message broker that routes text frames
//! between interactive clients and named services over per-connection
//! frame channels.
//!
//! The crate verifies the broker's logic: the wire grammar (parsing and
//! formatting of hello, request, reply and broadcast frames), the client
//! and service registries with their invariants, and the per-connection
//! handler state machines. Transport (sockets, task spawning, timers)
//! lives outside the library and drives these functions with the frames
//! it reads.

pub mod client;
pub mod default_services;
pub mod device;
pub mod laws;
pub mod num;
pub mod server;
pub mod service;
pub mod text;
pub mod wire;

use vstd::prelude::*;

verus! {

/// A keepalive ping is the text frame holding exactly this character.
pub open spec fn keepalive_char() -> char {
    '?'
}

/// The errors the broker's components report. Each carries the exact
/// diagnostic text the wire protocol uses.
#[derive(Clone, Copy, Debug, PartialEq, Eq, Structural)]
pub enum BrokerError {
    /// A peer closed its connection; the owning handler unwinds.
    ConnectionClosed,
    /// A client closed but was not registered under its serial.
    CloseNotRegistered,
    /// An outbound frame could not be handed to the peer's connection.
    CanNotSend,
    /// A binary frame arrived; binary routing is reserved and rejected.
    BinaryUnsupported,
    /// A removal named a serial with no registered clients.
    InvalidClientSerial,
    /// A second service claimed a name already registered.
    ServiceAlreadyRegistered,
    /// A lookup named a service that is not registered.
    InvalidService,
    /// A request handler was asked to serve a broadcast service.
    NotARequestService,
    /// A broadcast binding was asked to serve a request service.
    NotABroadcastService,
    /// A service hello carried a type other than request or broadcast.
    InvalidServiceType,
    /// A service hello carried no type at all.
    ServiceTypeUnspecified,
}

impl BrokerError {
    /// The diagnostic text of this error.
    pub open spec fn message_spec(&self) -> Seq<char> {
        match self {
            BrokerError::ConnectionClosed => "Connection closed"@,
            BrokerError::CloseNotRegistered => "Connection should close but not"@,
            BrokerError::CanNotSend => "Can not Send"@,
            BrokerError::BinaryUnsupported => "Binary frames are unsupported"@,
            BrokerError::InvalidClientSerial => "Invalid Client Serial"@,
            BrokerError::ServiceAlreadyRegistered => "Service already registered"@,
            BrokerError::InvalidService => "Invalid Service"@,
            BrokerError::NotARequestService => "Not a Request Service"@,
            BrokerError::NotABroadcastService => "Not a Broadcast Service"@,
            BrokerError::InvalidServiceType => "Invalid ServiceType"@,
            BrokerError::ServiceTypeUnspecified => "ServiceType Unspecified"@,
        }
    }

    /// The diagnostic text of this error.
    pub fn message(&self) -> (r: Vec<char>)
        ensures
            r@ == self.message_spec(),
    {
        match self {
            BrokerError::ConnectionClosed => text::str_chars("Connection closed"),
            BrokerError::CloseNotRegistered => text::str_chars("Connection should close but not"),
            BrokerError::CanNotSend => text::str_chars("Can not Send"),
            BrokerError::BinaryUnsupported => text::str_chars("Binary frames are unsupported"),
            BrokerError::InvalidClientSerial => text::str_chars("Invalid Client Serial"),
            BrokerError::ServiceAlreadyRegistered => text::str_chars("Service already registered"),
            BrokerError::InvalidService => text::str_chars("Invalid Service"),
            BrokerError::NotARequestService => text::str_chars("Not a Request Service"),
            BrokerError::NotABroadcastService => text::str_chars("Not a Broadcast Service"),
            BrokerError::InvalidServiceType => text::str_chars("Invalid ServiceType"),
            BrokerError::ServiceTypeUnspecified => text::str_chars("ServiceType Unspecified"),
        }
    }
}

} // verus!
