//! Service registry: maps a service name to the single service currently
//! providing it. A name can be claimed once; a second claim is rejected
//! and leaves the registered service untouched.

use crate::client::client_get_spec;
use crate::server::{ConnectionMap, Outbound};
use crate::text::{chars_eq, clone_chars, eq_str, str_chars, sub_chars};
use crate::wire::{
    broadcast_frame_spec, format_broadcast_frame, format_reply_frame, format_service_reply_frame,
    parse_forwarded_spec, parse_service_reply, parse_service_reply_spec, reply_frame_spec,
    service_reply_frame_spec, split_sep, split_sep_spec, Message, MessageV,
};
use crate::BrokerError;
use vstd::prelude::*;

verus! {

/// Whether a service answers requests or publishes broadcasts.
#[derive(Clone, Copy, Debug, PartialEq, Eq, Structural)]
pub enum ServiceType {
    Request,
    Broadcast,
}

/// A registered service: its name, kind, and the handle of the
/// connection that owns it.
#[derive(Debug)]
pub struct Service {
    pub name: Vec<char>,
    pub service_type: ServiceType,
    pub connection: u64,
}

/// Mathematical value of a `Service`.
pub ghost struct ServiceV {
    pub name: Seq<char>,
    pub service_type: ServiceType,
    pub connection: u64,
}

impl View for Service {
    type V = ServiceV;

    open spec fn view(&self) -> ServiceV {
        ServiceV {
            name: self.name@,
            service_type: self.service_type,
            connection: self.connection,
        }
    }
}

impl Service {
    /// A fresh service value equal to this one.
    pub fn duplicate(&self) -> (r: Service)
        ensures
            r@ == self@,
    {
        Service {
            name: clone_chars(&self.name),
            service_type: self.service_type,
            connection: self.connection,
        }
    }
}

/// Registry value: service name to the service registered under it.
pub type ServiceMapV = Map<Seq<char>, ServiceV>;

/// One registered name and its service.
pub struct ServiceEntry {
    pub name: Vec<char>,
    pub service: Service,
}

/// The service registry.
pub struct ServiceMap {
    entries: Vec<ServiceEntry>,
}

/// Mathematical value of the whole registry.
pub open spec fn service_entries_view(es: Seq<ServiceEntry>) -> ServiceMapV
    decreases es.len(),
{
    if es.len() == 0 {
        Map::empty()
    } else {
        service_entries_view(es.drop_last()).insert(es.last().name@, es.last().service@)
    }
}

impl View for ServiceMap {
    type V = ServiceMapV;

    closed spec fn view(&self) -> ServiceMapV {
        service_entries_view(self.entries@)
    }
}

/// Registry value after a registration attempt: a name already present
/// keeps its service; a free name takes the new one.
pub open spec fn service_insert_spec(m: ServiceMapV, n: Seq<char>, s: ServiceV) -> ServiceMapV {
    if m.dom().contains(n) {
        m
    } else {
        m.insert(n, s)
    }
}

impl ServiceMap {
    /// Well-formedness: registered names are unique.
    pub closed spec fn wf(&self) -> bool {
        forall|i: int, j: int|
            0 <= i < j < self.entries@.len() ==> self.entries@[i].name@ != self.entries@[j].name@
    }

    /// An empty registry.
    pub fn new() -> (r: ServiceMap)
        ensures
            r.wf(),
            r@ == Map::<Seq<char>, ServiceV>::empty(),
    {
        ServiceMap { entries: Vec::new() }
    }

    /// Index of the entry registered under `name`, if one is present.
    fn find_entry(&self, name: &[char]) -> (r: Option<usize>)
        requires
            self.wf(),
        ensures
            match r {
                Some(i) => {
                    &&& i < self.entries@.len()
                    &&& self.entries@[i as int].name@ == name@
                    &&& self@.dom().contains(name@)
                    &&& self@[name@] == self.entries@[i as int].service@
                },
                None => !self@.dom().contains(name@),
            },
    {
        let n = self.entries.len();
        let mut i: usize = 0;
        while i < n
            invariant
                i <= n,
                n == self.entries@.len(),
                self.wf(),
                forall|j: int| 0 <= j < i ==> self.entries@[j].name@ != name@,
            decreases n - i,
        {
            if chars_eq(self.entries[i].name.as_slice(), name) {
                proof {
                    lemma_service_view_index(self.entries@, i as int);
                }
                return Some(i);
            }
            i += 1;
        }
        proof {
            lemma_service_view_absent(self.entries@, name@);
        }
        None
    }

    /// Register `service` under `name`. Succeeds only when the name is
    /// free; a second registration is rejected and changes nothing.
    pub fn insert(&mut self, name: &[char], service: Service) -> (r: Result<(), BrokerError>)
        requires
            old(self).wf(),
        ensures
            final(self).wf(),
            final(self)@ == service_insert_spec(old(self)@, name@, service@),
            match r {
                Ok(u) => !old(self)@.dom().contains(name@),
                Err(e) => old(self)@.dom().contains(name@) && e
                    == BrokerError::ServiceAlreadyRegistered,
            },
    {
        let ghost es0 = self.entries@;
        match self.find_entry(name) {
            Some(_) => Err(BrokerError::ServiceAlreadyRegistered),
            None => {
                let entry = ServiceEntry { name: crate::text::sub_chars(name, 0, name.len()), service };
                proof {
                    assert(entry.name@ =~= name@);
                }
                self.entries.push(entry);
                proof {
                    let es1 = self.entries@;
                    assert(es1.drop_last() =~= es0);
                    assert forall|j: int| 0 <= j < es0.len() implies es0[j].name@ != name@ by {
                        lemma_service_view_index(es0, j);
                    }
                    assert forall|a: int, b: int| 0 <= a < b < es1.len() implies es1[a].name@
                        != es1[b].name@ by {
                        if b < es0.len() {
                            assert(es0[a].name@ != es0[b].name@);
                        }
                    }
                }
                Ok(())
            },
        }
    }

    /// Look up the service registered under `name`.
    pub fn get(&self, name: &[char]) -> (r: Result<Service, BrokerError>)
        requires
            self.wf(),
        ensures
            match r {
                Ok(s) => self@.dom().contains(name@) && s@ == self@[name@],
                Err(e) => !self@.dom().contains(name@) && e == BrokerError::InvalidService,
            },
    {
        match self.find_entry(name) {
            Some(i) => Ok(self.entries[i].service.duplicate()),
            None => Err(BrokerError::InvalidService),
        }
    }

    /// Deregister `name`. Idempotent: removing an absent name is a no-op.
    pub fn remove(&mut self, name: &[char])
        requires
            old(self).wf(),
        ensures
            final(self).wf(),
            final(self)@ == old(self)@.remove(name@),
    {
        let ghost es0 = self.entries@;
        let ghost m0 = self@;
        match self.find_entry(name) {
            Some(i) => {
                proof {
                    lemma_service_view_remove_at(es0, i as int);
                }
                let _ = self.entries.remove(i);
                proof {
                    let es1 = self.entries@;
                    assert forall|a: int, b: int| 0 <= a < b < es1.len() implies es1[a].name@
                        != es1[b].name@ by {
                        let a0 = if a < i { a } else { a + 1 };
                        let b0 = if b < i { b } else { b + 1 };
                        assert(es1[a] == es0[a0] && es1[b] == es0[b0]);
                        assert(es0[a0].name@ != es0[b0].name@);
                    }
                }
            },
            None => {
                proof {
                    assert(m0.remove(name@) =~= m0);
                }
            },
        }
    }
}

/// What a hello frame announces.
pub ghost enum HelloV {
    /// No leading `+`: the frame is a client hello, its body the serial.
    NotService,
    /// `+<name>::<type>` with a known type.
    Announce { name: Seq<char>, service_type: ServiceType },
    /// `+<name>::<t>` with an unknown type token `t`.
    BadType,
    /// `+<name>` without any `::`.
    NoType,
}

/// What the hello parse yields: the name is the part of the body before
/// the first `::`, the type token the next `::`-separated segment.
pub open spec fn parse_hello_spec(t: Seq<char>) -> HelloV {
    if t.len() == 0 || t[0] != '+' {
        HelloV::NotService
    } else {
        let body = t.subrange(1, t.len() as int);
        let nd = split_sep_spec(body);
        match nd.1 {
            None => HelloV::NoType,
            Some(after) => {
                let tok = split_sep_spec(after).0;
                if tok == "request"@ {
                    HelloV::Announce { name: nd.0, service_type: ServiceType::Request }
                } else if tok == "broadcast"@ {
                    HelloV::Announce { name: nd.0, service_type: ServiceType::Broadcast }
                } else {
                    HelloV::BadType
                }
            },
        }
    }
}

impl Service {
    /// Read a hello frame: `Ok(None)` when it is a client hello,
    /// `Ok(Some(service))` when it announces a service on `connection`,
    /// and the exact error when the type is missing or unknown.
    pub fn from_req(req: &[char], connection: u64) -> (r: Result<Option<Service>, BrokerError>)
        ensures
            match parse_hello_spec(req@) {
                HelloV::NotService => r matches Ok(o) && o is None,
                HelloV::Announce { name, service_type } => r matches Ok(o) && o matches Some(s)
                    && s@ == (ServiceV { name, service_type, connection }),
                HelloV::NoType => r == Err::<Option<Service>, BrokerError>(
                    BrokerError::ServiceTypeUnspecified,
                ),
                HelloV::BadType => r == Err::<Option<Service>, BrokerError>(
                    BrokerError::InvalidServiceType,
                ),
            },
    {
        if req.len() == 0 {
            return Ok(None);
        }
        if req[0] != '+' {
            return Ok(None);
        }
        let body = sub_chars(req, 1, req.len());
        let (name, after) = split_sep(body.as_slice());
        match after {
            None => Err(BrokerError::ServiceTypeUnspecified),
            Some(a) => {
                let (tok, _rest) = split_sep(a.as_slice());
                if eq_str(tok.as_slice(), "request") {
                    Ok(Some(Service { name, service_type: ServiceType::Request, connection }))
                } else if eq_str(tok.as_slice(), "broadcast") {
                    Ok(Some(Service { name, service_type: ServiceType::Broadcast, connection }))
                } else {
                    Err(BrokerError::InvalidServiceType)
                }
            },
        }
    }
}

/// Serves one registered request service: forwards each well-addressed
/// reply to the client it names.
#[derive(Debug)]
pub struct RequestHandler {
    pub service: Service,
}

impl RequestHandler {
    /// A handler for `service`; only a request service can have one.
    pub fn new(service: Service) -> (r: Result<RequestHandler, BrokerError>)
        ensures
            match r {
                Ok(h) => service@.service_type == ServiceType::Request && h.service@ == service@,
                Err(e) => service@.service_type == ServiceType::Broadcast && e
                    == BrokerError::NotARequestService,
            },
    {
        match service.service_type {
            ServiceType::Request => Ok(RequestHandler { service }),
            ServiceType::Broadcast => Err(BrokerError::NotARequestService),
        }
    }

    /// One step on a frame from the service's connection: a close
    /// deregisters the service and ends the handler; a text frame is a
    /// reply, parsed and forwarded to the client it addresses, with
    /// `!Invalid Destination` back to the service when the address is
    /// malformed or names no registered client.
    pub fn handle(&self, cm: &mut ConnectionMap, msg: Message) -> (r: Result<
        Vec<Outbound>,
        BrokerError,
    >)
        requires
            old(cm).wf(),
        ensures
            final(cm).wf(),
            final(cm).client_map@ == old(cm).client_map@,
            match msg@ {
                MessageV::Close => {
                    &&& final(cm).service_map@ == old(cm).service_map@.remove(self.service.name@)
                    &&& r == Err::<Vec<Outbound>, BrokerError>(BrokerError::ConnectionClosed)
                },
                MessageV::Text(t) => {
                    &&& final(cm).service_map@ == old(cm).service_map@
                    &&& match parse_service_reply_spec(t) {
                        None => r matches Ok(sends) && sends@.len() == 1
                            && sends@[0].connection == self.service.connection
                            && sends@[0].frame@ == "!Invalid Destination"@,
                        Some(sr) => match sr.payload {
                            None => r matches Ok(sends) && sends@.len() == 0,
                            Some(d) => match client_get_spec(
                                old(cm).client_map@,
                                sr.serial,
                                sr.id,
                            ) {
                                None => r matches Ok(sends) && sends@.len() == 1
                                    && sends@[0].connection == self.service.connection
                                    && sends@[0].frame@ == "!Invalid Destination"@,
                                Some(c) => r matches Ok(sends) && sends@.len() == 1
                                    && sends@[0].connection == c.connection
                                    && sends@[0].frame@ == reply_frame_spec(
                                    sr.request,
                                    sr.tag,
                                    self.service.name@,
                                    d,
                                ),
                            },
                        },
                    }
                },
                MessageV::Binary(b) => {
                    &&& final(cm).service_map@ == old(cm).service_map@
                    &&& r == Err::<Vec<Outbound>, BrokerError>(BrokerError::BinaryUnsupported)
                },
                MessageV::Other => {
                    &&& final(cm).service_map@ == old(cm).service_map@
                    &&& r matches Ok(sends) && sends@.len() == 0
                },
            },
    {
        match msg {
            Message::Close => {
                cm.service_map.remove(self.service.name.as_slice());
                Err(BrokerError::ConnectionClosed)
            },
            Message::Text(t) => {
                match parse_service_reply(t.as_slice()) {
                    None => {
                        let mut sends: Vec<Outbound> = Vec::new();
                        sends.push(
                            Outbound {
                                connection: self.service.connection,
                                frame: str_chars("!Invalid Destination"),
                            },
                        );
                        Ok(sends)
                    },
                    Some(sr) => {
                        match sr.payload {
                            None => Ok(Vec::new()),
                            Some(d) => {
                                match cm.client_map.get(sr.serial.as_slice(), sr.id) {
                                    None => {
                                        let mut sends: Vec<Outbound> = Vec::new();
                                        sends.push(
                                            Outbound {
                                                connection: self.service.connection,
                                                frame: str_chars("!Invalid Destination"),
                                            },
                                        );
                                        Ok(sends)
                                    },
                                    Some(c) => {
                                        let frame = format_reply_frame(
                                            sr.request.as_slice(),
                                            sr.tag.as_slice(),
                                            self.service.name.as_slice(),
                                            d.as_slice(),
                                        );
                                        let mut sends: Vec<Outbound> = Vec::new();
                                        sends.push(
                                            Outbound { connection: c.connection, frame },
                                        );
                                        Ok(sends)
                                    },
                                }
                            },
                        }
                    },
                }
            },
            Message::Binary(_) => Err(BrokerError::BinaryUnsupported),
            Message::Other => Ok(Vec::new()),
        }
    }
}

/// Serves one (broadcast service, subscribed client) pair: forwards each
/// publication to that client.
#[derive(Debug)]
pub struct BroadcastHandler {
    pub service: Service,
    pub client: crate::client::Client,
}

impl BroadcastHandler {
    /// A binding of `client` to `service`; only a broadcast service can
    /// have one.
    pub fn new(service: Service, client: crate::client::Client) -> (r: Result<
        BroadcastHandler,
        BrokerError,
    >)
        ensures
            match r {
                Ok(h) => service@.service_type == ServiceType::Broadcast && h.service@ == service@
                    && h.client@ == client@,
                Err(e) => service@.service_type == ServiceType::Request && e
                    == BrokerError::NotABroadcastService,
            },
    {
        match service.service_type {
            ServiceType::Broadcast => Ok(BroadcastHandler { service, client }),
            ServiceType::Request => Err(BrokerError::NotABroadcastService),
        }
    }

    /// One step on a frame published by the service: a close
    /// deregisters the service and ends the pump; a text frame is
    /// delivered to the subscribed client as `<name>::<payload>` —
    /// exactly one delivery per publication.
    pub fn handle(&self, cm: &mut ConnectionMap, msg: Message) -> (r: Result<
        Vec<Outbound>,
        BrokerError,
    >)
        requires
            old(cm).wf(),
        ensures
            final(cm).wf(),
            final(cm).client_map@ == old(cm).client_map@,
            match msg@ {
                MessageV::Close => {
                    &&& final(cm).service_map@ == old(cm).service_map@.remove(self.service.name@)
                    &&& r == Err::<Vec<Outbound>, BrokerError>(BrokerError::ConnectionClosed)
                },
                MessageV::Text(t) => {
                    &&& final(cm).service_map@ == old(cm).service_map@
                    &&& r matches Ok(sends) && sends@.len() == 1 && sends@[0].connection
                        == self.client.connection && sends@[0].frame@ == broadcast_frame_spec(
                        self.service.name@,
                        t,
                    )
                },
                MessageV::Binary(b) => {
                    &&& final(cm).service_map@ == old(cm).service_map@
                    &&& r == Err::<Vec<Outbound>, BrokerError>(BrokerError::BinaryUnsupported)
                },
                MessageV::Other => {
                    &&& final(cm).service_map@ == old(cm).service_map@
                    &&& r matches Ok(sends) && sends@.len() == 0
                },
            },
    {
        match msg {
            Message::Close => {
                cm.service_map.remove(self.service.name.as_slice());
                Err(BrokerError::ConnectionClosed)
            },
            Message::Text(t) => {
                let frame = format_broadcast_frame(self.service.name.as_slice(), t.as_slice());
                let mut sends: Vec<Outbound> = Vec::new();
                sends.push(Outbound { connection: self.client.connection, frame });
                Ok(sends)
            },
            Message::Binary(_) => Err(BrokerError::BinaryUnsupported),
            Message::Other => Ok(Vec::new()),
        }
    }
}

/// The client a forwarded request came from.
#[derive(Debug)]
pub struct ClientInfo {
    pub serial: Vec<char>,
    pub id: u32,
}

/// One request as a request service consumes it: the originating
/// client, the tag to echo back, and the request payload.
#[derive(Debug)]
pub struct Request {
    pub info: ClientInfo,
    pub tag: Vec<char>,
    pub request: Vec<char>,
}

/// What a service answers a request with. Binary replies are reserved
/// and cannot be formatted.
pub enum Reply {
    Text(Vec<char>),
    Binary(Vec<u8>),
    Error(Vec<char>),
}

/// What a broadcast service publishes. Binary messages are reserved.
pub enum BroadcastMessage {
    Text(Vec<char>),
    Binary(Vec<u8>),
}

impl Request {
    /// Read one frame arriving on a request service's connection: the
    /// request it forwards, when it is well-formed and carries one.
    pub fn from_frame(t: &[char]) -> (r: Option<Request>)
        ensures
            match r {
                Some(rq) => parse_forwarded_spec(t@) matches Some(f) && rq.info.serial@ == f.serial
                    && rq.info.id == f.id && rq.tag@ == f.tag && rq.request@ == f.request,
                None => parse_forwarded_spec(t@) is None,
            },
    {
        let (head, data) = split_sep(t);
        let sa = match crate::wire::split_at_char(head.as_slice(), '@') {
            Some(sa) => sa,
            None => {
                return None;
            },
        };
        let (serial, idt) = sa;
        let (digits, tag) = match crate::wire::split_at_char(idt.as_slice(), '#') {
            Some((digits, after)) => {
                let mut tag: Vec<char> = Vec::new();
                tag.push('#');
                tag.extend_from_slice(after.as_slice());
                proof {
                    assert(tag@ =~= seq!['#'] + after@);
                }
                (digits, tag)
            },
            None => (idt, Vec::new()),
        };
        let id = match crate::num::parse_u32(digits.as_slice()) {
            Some(id) => id,
            None => {
                return None;
            },
        };
        match data {
            None => None,
            Some(d) => Some(
                Request { info: ClientInfo { serial, id }, tag, request: d },
            ),
        }
    }

    /// The frame that answers this request: text replies carry the
    /// payload, error replies prefix it with `!`. Binary replies are
    /// reserved and cannot be formatted.
    pub fn reply_frame(&self, reply: &Reply) -> (r: Vec<char>)
        requires
            !(reply matches Reply::Binary(_)),
        ensures
            reply matches Reply::Text(p) ==> r@ == service_reply_frame_spec(
                self.info.serial@,
                self.info.id,
                self.request@,
                self.tag@,
                p@,
            ),
            reply matches Reply::Error(p) ==> r@ == service_reply_frame_spec(
                self.info.serial@,
                self.info.id,
                self.request@,
                self.tag@,
                seq!['!'] + p@,
            ),
    {
        match reply {
            Reply::Text(p) => format_service_reply_frame(
                self.info.serial.as_slice(),
                self.info.id,
                self.request.as_slice(),
                self.tag.as_slice(),
                p.as_slice(),
                false,
            ),
            Reply::Error(p) => format_service_reply_frame(
                self.info.serial.as_slice(),
                self.info.id,
                self.request.as_slice(),
                self.tag.as_slice(),
                p.as_slice(),
                true,
            ),
            Reply::Binary(_) => vstd::pervasive::unreached(),
        }
    }
}

/// With unique names, the registry value maps each entry's name to its
/// service.
proof fn lemma_service_view_index(es: Seq<ServiceEntry>, i: int)
    requires
        0 <= i < es.len(),
        forall|a: int, b: int| 0 <= a < b < es.len() ==> es[a].name@ != es[b].name@,
    ensures
        service_entries_view(es).dom().contains(es[i].name@),
        service_entries_view(es)[es[i].name@] == es[i].service@,
    decreases es.len(),
{
    if i < es.len() - 1 {
        let d = es.drop_last();
        assert(forall|a: int, b: int| 0 <= a < b < d.len() ==> d[a].name@ != d[b].name@);
        lemma_service_view_index(d, i);
        assert(es.last().name@ != es[i].name@);
    }
}

/// A name held by no entry is not in the registry value.
proof fn lemma_service_view_absent(es: Seq<ServiceEntry>, n: Seq<char>)
    requires
        forall|i: int| 0 <= i < es.len() ==> es[i].name@ != n,
    ensures
        !service_entries_view(es).dom().contains(n),
    decreases es.len(),
{
    if es.len() > 0 {
        lemma_service_view_absent(es.drop_last(), n);
    }
}

/// Taking an entry out takes its name out of the registry value.
proof fn lemma_service_view_remove_at(es: Seq<ServiceEntry>, i: int)
    requires
        0 <= i < es.len(),
        forall|a: int, b: int| 0 <= a < b < es.len() ==> es[a].name@ != es[b].name@,
    ensures
        service_entries_view(es.remove(i)) == service_entries_view(es).remove(es[i].name@),
    decreases es.len(),
{
    let k = es[i].name@;
    if i == es.len() - 1 {
        assert(es.remove(i) =~= es.drop_last());
        assert(forall|j: int| 0 <= j < es.drop_last().len() ==> es.drop_last()[j].name@ != k);
        lemma_service_view_absent(es.drop_last(), k);
        assert(service_entries_view(es.remove(i)) =~= service_entries_view(es).remove(k));
    } else {
        let d = es.drop_last();
        assert(forall|a: int, b: int| 0 <= a < b < d.len() ==> d[a].name@ != d[b].name@);
        lemma_service_view_remove_at(d, i);
        assert(es.remove(i).drop_last() =~= d.remove(i));
        assert(es.remove(i).last() == es.last());
        assert(es.last().name@ != k);
        assert(service_entries_view(es.remove(i)) =~= service_entries_view(es).remove(k));
    }
}

/// A service stays as registered: a later registration attempt under any
/// name, successful or rejected, and a removal of any other name leave
/// the service stored under a present name unchanged.
pub proof fn lemma_service_type_stable(m: ServiceMapV, k: Seq<char>, n: Seq<char>, s: ServiceV)
    requires
        m.dom().contains(k),
    ensures
        service_insert_spec(m, n, s).dom().contains(k),
        k != n ==> service_insert_spec(m, n, s)[k] == m[k],
        k == n ==> service_insert_spec(m, n, s)[k] == m[k],
        k != n ==> m.remove(n).dom().contains(k) && m.remove(n)[k] == m[k],
{
}

} // verus!
