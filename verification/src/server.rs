//! The shared registry pair every handler works on, outbound frames as
//! handler results, and the acceptor's hello step: reading the first
//! text frame of a fresh connection and installing a client or service.

use crate::client::{client_insert_spec, next_id_spec, ClientHandler, ClientMap, ClientV};
use crate::service::{
    parse_hello_spec, HelloV, RequestHandler, Service, ServiceMap, ServiceType, ServiceV,
};
use crate::text::str_chars;
use crate::wire::{Message, MessageV};
use vstd::prelude::*;

verus! {

/// The two registries shared by the acceptor and every handler.
pub struct ConnectionMap {
    pub client_map: ClientMap,
    pub service_map: ServiceMap,
}

impl ConnectionMap {
    /// Both registries are well-formed.
    pub open spec fn wf(&self) -> bool {
        self.client_map.wf() && self.service_map.wf()
    }

    /// A fresh pair of empty registries.
    pub fn new() -> (r: ConnectionMap)
        ensures
            r.wf(),
            r.client_map@ == Map::<Seq<char>, Seq<(u32, crate::client::ClientV)>>::empty(),
            r.service_map@ == Map::<Seq<char>, crate::service::ServiceV>::empty(),
    {
        ConnectionMap { client_map: ClientMap::new(), service_map: ServiceMap::new() }
    }
}

/// A frame to hand to one connection's writer.
#[derive(Debug)]
pub struct Outbound {
    pub connection: u64,
    pub frame: Vec<char>,
}

/// How the hello loop goes on after one frame.
pub enum AcceptOutcome {
    /// Not a text frame: keep reading.
    Pending,
    /// A client was registered; serve it with this handler.
    Client(ClientHandler),
    /// A service was registered; a request service gets a handler,
    /// a broadcast service waits for subscribers.
    Service(Option<RequestHandler>),
    /// The hello failed (bad type, or the name was taken): the loop ends.
    Rejected,
}

/// One step of the acceptor's hello loop.
pub struct AcceptStep {
    pub sends: Vec<Outbound>,
    pub outcome: AcceptOutcome,
}

/// One step of the hello loop on a fresh connection.
///
/// A text frame starting `+` registers a service: on success a request
/// service gets a handler; a name already taken is answered with
/// `!Service already registered`; a missing or unknown type with the
/// matching diagnostic, and the loop ends. Any other text frame is a
/// client hello: its whole body is the serial, the client is registered
/// and acknowledged — the `@Ok` is the only frame this step sends to
/// the new client, so it precedes every other frame the broker will
/// ever send it. Non-text frames leave the loop pending.
pub fn accept_hello(cm: &mut ConnectionMap, connection: u64, msg: Message) -> (r: AcceptStep)
    requires
        old(cm).wf(),
        forall|s: Seq<char>| next_id_spec(old(cm).client_map@, s) <= u32::MAX,
    ensures
        final(cm).wf(),
        match msg@ {
            MessageV::Text(t) => match parse_hello_spec(t) {
                HelloV::NotService => {
                    &&& final(cm).service_map@ == old(cm).service_map@
                    &&& r.sends@.len() == 1
                    &&& r.sends@[0].connection == connection
                    &&& r.sends@[0].frame@ == "@Ok"@
                    &&& (r.outcome matches AcceptOutcome::Client(h) && h.client@ == (ClientV {
                        serial: t,
                        connection,
                    }) && h.id == next_id_spec(old(cm).client_map@, t) && final(cm).client_map@
                        == client_insert_spec(old(cm).client_map@, t, h.id, h.client@))
                },
                HelloV::Announce { name, service_type } => {
                    &&& final(cm).client_map@ == old(cm).client_map@
                    &&& if old(cm).service_map@.dom().contains(name) {
                        &&& final(cm).service_map@ == old(cm).service_map@
                        &&& r.sends@.len() == 1
                        &&& r.sends@[0].connection == connection
                        &&& r.sends@[0].frame@ == "!Service already registered"@
                        &&& r.outcome is Rejected
                    } else {
                        &&& final(cm).service_map@ == old(cm).service_map@.insert(
                            name,
                            ServiceV { name, service_type, connection },
                        )
                        &&& r.sends@.len() == 0
                        &&& match service_type {
                            ServiceType::Request => r.outcome matches AcceptOutcome::Service(o)
                                && (o matches Some(h) && h.service@ == (ServiceV {
                                name,
                                service_type,
                                connection,
                            })),
                            ServiceType::Broadcast => r.outcome matches AcceptOutcome::Service(o)
                                && o is None,
                        }
                    }
                },
                HelloV::NoType => {
                    &&& final(cm).client_map@ == old(cm).client_map@
                    &&& final(cm).service_map@ == old(cm).service_map@
                    &&& r.sends@.len() == 1
                    &&& r.sends@[0].connection == connection
                    &&& r.sends@[0].frame@ == "ServiceType Unspecified"@
                    &&& r.outcome is Rejected
                },
                HelloV::BadType => {
                    &&& final(cm).client_map@ == old(cm).client_map@
                    &&& final(cm).service_map@ == old(cm).service_map@
                    &&& r.sends@.len() == 1
                    &&& r.sends@[0].connection == connection
                    &&& r.sends@[0].frame@ == "Invalid ServiceType"@
                    &&& r.outcome is Rejected
                },
            },
            _ => {
                &&& final(cm).client_map@ == old(cm).client_map@
                &&& final(cm).service_map@ == old(cm).service_map@
                &&& r.sends@.len() == 0
                &&& r.outcome is Pending
            },
        },
{
    match msg {
        Message::Text(t) => {
            match Service::from_req(t.as_slice(), connection) {
                Ok(Some(service)) => {
                    let ghost sv = service@;
                    let is_request = match service.service_type {
                        ServiceType::Request => true,
                        ServiceType::Broadcast => false,
                    };
                    let dup = service.duplicate();
                    match cm.service_map.insert(dup.name.as_slice(), service) {
                        Err(_) => {
                            let mut sends: Vec<Outbound> = Vec::new();
                            sends.push(
                                Outbound {
                                    connection,
                                    frame: str_chars("!Service already registered"),
                                },
                            );
                            AcceptStep { sends, outcome: AcceptOutcome::Rejected }
                        },
                        Ok(_) => {
                            if is_request {
                                match RequestHandler::new(dup) {
                                    Ok(h) => AcceptStep {
                                        sends: Vec::new(),
                                        outcome: AcceptOutcome::Service(Some(h)),
                                    },
                                    Err(_) => vstd::pervasive::unreached(),
                                }
                            } else {
                                AcceptStep {
                                    sends: Vec::new(),
                                    outcome: AcceptOutcome::Service(None),
                                }
                            }
                        },
                    }
                },
                Ok(None) => {
                    let (h, ok) = ClientHandler::from_req(t.as_slice(), connection, cm);
                    let mut sends: Vec<Outbound> = Vec::new();
                    sends.push(ok);
                    AcceptStep { sends, outcome: AcceptOutcome::Client(h) }
                },
                Err(e) => {
                    let mut sends: Vec<Outbound> = Vec::new();
                    sends.push(Outbound { connection, frame: e.message() });
                    AcceptStep { sends, outcome: AcceptOutcome::Rejected }
                },
            }
        },
        _ => AcceptStep { sends: Vec::new(), outcome: AcceptOutcome::Pending },
    }
}

} // verus!
