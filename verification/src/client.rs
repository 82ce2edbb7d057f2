//! Client registry: maps a device serial to the ordered list of
//! per-connection client handles for that serial.
//!
//! Invariants of the registry: every serial present has at least one
//! client; the numeric ids under one serial are strictly increasing; a
//! newly allocated id exceeds every id currently present for its serial.

use crate::server::{ConnectionMap, Outbound};
use crate::service::{BroadcastHandler, ServiceType};
use crate::text::{chars_eq, clone_chars, str_chars};
use crate::wire::{
    format_request_frame, parse_client_request, parse_client_request_spec, request_frame_spec,
    Message, MessageV,
};
use crate::BrokerError;
use vstd::prelude::*;

verus! {

/// A connected client: the serial it announced in its hello frame and
/// the handle of the connection that owns it.
#[derive(Debug)]
pub struct Client {
    pub serial: Vec<char>,
    pub connection: u64,
}

/// Mathematical value of a `Client`.
pub ghost struct ClientV {
    pub serial: Seq<char>,
    pub connection: u64,
}

impl View for Client {
    type V = ClientV;

    open spec fn view(&self) -> ClientV {
        ClientV { serial: self.serial@, connection: self.connection }
    }
}

impl Client {
    /// A fresh client value equal to this one.
    pub fn duplicate(&self) -> (r: Client)
        ensures
            r@ == self@,
    {
        Client { serial: clone_chars(&self.serial), connection: self.connection }
    }
}

/// Registry value: serial to the list of (id, client) pairs, ids ascending.
pub type ClientMapV = Map<Seq<char>, Seq<(u32, ClientV)>>;

/// One serial's entry: the ordered list of connected clients.
pub struct ClientEntry {
    pub serial: Vec<char>,
    pub clients: Vec<(u32, Client)>,
}

/// The client registry.
pub struct ClientMap {
    entries: Vec<ClientEntry>,
}

/// Mathematical value of one entry's client list.
pub open spec fn slots_view(cs: Seq<(u32, Client)>) -> Seq<(u32, ClientV)> {
    cs.map_values(|p: (u32, Client)| (p.0, p.1@))
}

/// Mathematical value of the whole registry.
pub open spec fn entries_view(es: Seq<ClientEntry>) -> ClientMapV
    decreases es.len(),
{
    if es.len() == 0 {
        Map::empty()
    } else {
        entries_view(es.drop_last()).insert(
            es.last().serial@,
            slots_view(es.last().clients@),
        )
    }
}

impl View for ClientMap {
    type V = ClientMapV;

    closed spec fn view(&self) -> ClientMapV {
        entries_view(self.entries@)
    }
}

/// Ids in a client list are strictly increasing.
pub open spec fn slots_sorted(cs: Seq<(u32, ClientV)>) -> bool {
    forall|a: int, b: int| 0 <= a < b < cs.len() ==> cs[a].0 < cs[b].0
}

/// The id the registry will hand to the next client for `s`:
/// one more than the last id present, or 1 when the serial is new.
pub open spec fn next_id_spec(m: ClientMapV, s: Seq<char>) -> int {
    if m.dom().contains(s) && m[s].len() > 0 {
        m[s].last().0 + 1
    } else {
        1
    }
}

/// The client list under `s`, empty when the serial is absent.
pub open spec fn slots_of(m: ClientMapV, s: Seq<char>) -> Seq<(u32, ClientV)> {
    if m.dom().contains(s) {
        m[s]
    } else {
        Seq::empty()
    }
}

/// Registry value after inserting a client for serial `s` under id `id`.
pub open spec fn client_insert_spec(m: ClientMapV, s: Seq<char>, id: u32, c: ClientV) -> ClientMapV {
    m.insert(s, slots_of(m, s).push((id, c)))
}

/// A client list with the pair keyed `id` taken out.
pub open spec fn remove_id(cs: Seq<(u32, ClientV)>, id: u32) -> Seq<(u32, ClientV)>
    decreases cs.len(),
{
    if cs.len() == 0 {
        Seq::empty()
    } else if cs[0].0 == id {
        cs.skip(1)
    } else {
        seq![cs[0]] + remove_id(cs.skip(1), id)
    }
}

/// Registry value after removing client (s, id); when the last client
/// of a serial goes, the serial's entry goes with it.
pub open spec fn client_remove_spec(m: ClientMapV, s: Seq<char>, id: u32) -> ClientMapV {
    if !m.dom().contains(s) {
        m
    } else {
        let cs = remove_id(m[s], id);
        if cs.len() == 0 {
            m.remove(s)
        } else {
            m.insert(s, cs)
        }
    }
}

/// The client stored under `id` in a client list, if any.
pub open spec fn find_id(cs: Seq<(u32, ClientV)>, id: u32) -> Option<ClientV>
    decreases cs.len(),
{
    if cs.len() == 0 {
        None
    } else if cs[0].0 == id {
        Some(cs[0].1)
    } else {
        find_id(cs.skip(1), id)
    }
}

/// The client registered under (s, id), if any.
pub open spec fn client_get_spec(m: ClientMapV, s: Seq<char>, id: u32) -> Option<ClientV> {
    if m.dom().contains(s) {
        find_id(m[s], id)
    } else {
        None
    }
}

impl ClientMap {
    /// Well-formedness: serials unique, every entry non-empty, ids ascending.
    pub closed spec fn wf(&self) -> bool {
        &&& forall|i: int, j: int|
            0 <= i < j < self.entries@.len() ==> self.entries@[i].serial@
                != self.entries@[j].serial@
        &&& forall|i: int|
            0 <= i < self.entries@.len() ==> #[trigger] self.entries@[i].clients@.len() > 0
        &&& forall|i: int|
            0 <= i < self.entries@.len() ==> slots_sorted(
                slots_view(#[trigger] self.entries@[i].clients@),
            )
    }

    /// An empty registry.
    pub fn new() -> (r: ClientMap)
        ensures
            r.wf(),
            r@ == Map::<Seq<char>, Seq<(u32, ClientV)>>::empty(),
    {
        ClientMap { entries: Vec::new() }
    }

    /// Index of the entry for `serial`, if one is present.
    fn find_entry(&self, serial: &[char]) -> (r: Option<usize>)
        requires
            self.wf(),
        ensures
            match r {
                Some(i) => {
                    &&& i < self.entries@.len()
                    &&& self.entries@[i as int].serial@ == serial@
                    &&& self@.dom().contains(serial@)
                    &&& self@[serial@] == slots_view(self.entries@[i as int].clients@)
                },
                None => !self@.dom().contains(serial@),
            },
    {
        let n = self.entries.len();
        let mut i: usize = 0;
        while i < n
            invariant
                i <= n,
                n == self.entries@.len(),
                self.wf(),
                forall|j: int| 0 <= j < i ==> self.entries@[j].serial@ != serial@,
            decreases n - i,
        {
            if chars_eq(self.entries[i].serial.as_slice(), serial) {
                proof {
                    lemma_entries_view_index(self.entries@, i as int);
                }
                return Some(i);
            }
            i += 1;
        }
        proof {
            lemma_entries_view_absent(self.entries@, serial@);
        }
        None
    }

    /// Index of the pair carrying `id` in entry `i`'s client list, if any.
    fn find_slot(&self, i: usize, id: u32) -> (r: Option<usize>)
        requires
            i < self.entries@.len(),
        ensures
            match r {
                Some(k) => {
                    &&& k < self.entries@[i as int].clients@.len()
                    &&& self.entries@[i as int].clients@[k as int].0 == id
                    &&& forall|j: int|
                        0 <= j < k ==> self.entries@[i as int].clients@[j].0 != id
                },
                None => forall|j: int|
                    0 <= j < self.entries@[i as int].clients@.len()
                        ==> self.entries@[i as int].clients@[j].0 != id,
            },
    {
        let n = self.entries[i].clients.len();
        let mut k: usize = 0;
        while k < n
            invariant
                k <= n,
                i < self.entries@.len(),
                n == self.entries@[i as int].clients@.len(),
                forall|j: int| 0 <= j < k ==> self.entries@[i as int].clients@[j].0 != id,
            decreases n - k,
        {
            if self.entries[i].clients[k].0 == id {
                return Some(k);
            }
            k += 1;
        }
        None
    }

    /// Register a client under `serial`, allocating the next id: one more
    /// than the greatest id present, or 1 when the serial is new.
    pub fn insert(&mut self, serial: &[char], client: Client) -> (id: u32)
        requires
            old(self).wf(),
            next_id_spec(old(self)@, serial@) <= u32::MAX,
        ensures
            final(self).wf(),
            id == next_id_spec(old(self)@, serial@),
            final(self)@ == client_insert_spec(old(self)@, serial@, id, client@),
            !old(self)@.dom().contains(serial@) ==> id == 1,
            forall|j: int|
                0 <= j < slots_of(old(self)@, serial@).len() ==> (#[trigger] slots_of(
                    old(self)@,
                    serial@,
                )[j]).0 < id,
    {
        let ghost m0 = self@;
        let ghost es0 = self.entries@;
        match self.find_entry(serial) {
            Some(i) => {
                let len = self.entries[i].clients.len();
                let ghost cs0 = self.entries@[i as int].clients@;
                let ghost slots0 = slots_view(cs0);
                proof {
                    assert(slots0.len() == cs0.len() && slots0.len() > 0);
                    assert(slots0.last() == (cs0.last().0, cs0.last().1@));
                }
                let last_id = self.entries[i].clients[len - 1].0;
                proof {
                    assert(last_id == slots0.last().0);
                    assert(next_id_spec(m0, serial@) == last_id + 1);
                }
                let id = last_id + 1;
                let ghost cl = client@;
                self.entries[i].clients.push((id, client));
                proof {
                    let es1 = self.entries@;
                    let e1 = es1[i as int];
                    assert(es1 =~= es0.update(i as int, e1));
                    assert(e1.serial@ == serial@);
                    assert(e1.clients@.len() == cs0.len() + 1);
                    assert(e1.clients@.last().0 == id && e1.clients@.last().1@ == cl);
                    assert(forall|j: int| 0 <= j < cs0.len() ==> e1.clients@[j] == cs0[j]);
                    assert(slots_view(e1.clients@) =~= slots0.push((id, cl)));
                    lemma_entries_view_update(es0, i as int, e1);
                    assert(self@ == m0.insert(serial@, slots0.push((id, cl))));
                    assert(self@ == client_insert_spec(m0, serial@, id, cl));
                    // the fresh id exceeds every id already present
                    assert forall|j: int| 0 <= j < slots0.len() implies (#[trigger] slots0[j]).0
                        < id by {
                        if j < slots0.len() - 1 {
                            assert(slots0[j].0 < slots0[slots0.len() - 1].0);
                        }
                    }
                    // well-formedness is preserved
                    assert forall|a: int, b: int| 0 <= a < b < es1.len() implies es1[a].serial@
                        != es1[b].serial@ by {
                        assert(es0[a].serial@ != es0[b].serial@);
                    }
                    assert(slots_sorted(slots_view(e1.clients@)));
                    assert forall|j: int| 0 <= j < es1.len() implies #[trigger] es1[j].clients@.len()
                        > 0 by {
                        if j != i {
                            assert(es0[j].clients@.len() > 0);
                        }
                    }
                    assert forall|j: int| 0 <= j < es1.len() implies slots_sorted(
                        slots_view(#[trigger] es1[j].clients@),
                    ) by {
                        if j != i {
                            assert(slots_sorted(slots_view(es0[j].clients@)));
                        }
                    }
                }
                id
            },
            None => {
                let mut clients: Vec<(u32, Client)> = Vec::new();
                let ghost cl = client@;
                clients.push((1, client));
                let entry = ClientEntry { serial: crate::text::sub_chars(serial, 0, serial.len()), clients };
                proof {
                    assert(entry.serial@ =~= serial@);
                }
                self.entries.push(entry);
                proof {
                    let es1 = self.entries@;
                    lemma_entries_view_push(es0, es1.last());
                    assert(slots_view(es1.last().clients@) =~= Seq::empty().push((1u32, cl)));
                    assert(slots_of(m0, serial@) =~= Seq::<(u32, ClientV)>::empty());
                    assert(self@ == client_insert_spec(m0, serial@, 1u32, cl));
                    // the new serial differs from every present one
                    assert forall|j: int| 0 <= j < es0.len() implies es0[j].serial@ != serial@ by {
                        lemma_entries_view_index(es0, j);
                    }
                    assert forall|a: int, b: int| 0 <= a < b < es1.len() implies es1[a].serial@
                        != es1[b].serial@ by {
                        if b < es0.len() {
                            assert(es0[a].serial@ != es0[b].serial@);
                        }
                    }
                    assert(slots_sorted(slots_view(es1.last().clients@)));
                    assert forall|j: int| 0 <= j < es1.len() implies #[trigger] es1[j].clients@.len()
                        > 0 by {
                        if j < es0.len() {
                            assert(es0[j].clients@.len() > 0);
                        }
                    }
                    assert forall|j: int| 0 <= j < es1.len() implies slots_sorted(
                        slots_view(#[trigger] es1[j].clients@),
                    ) by {
                        if j < es0.len() {
                            assert(slots_sorted(slots_view(es0[j].clients@)));
                        }
                    }
                }
                1
            },
        }
    }

    /// Whether every serial still has id headroom: the next id the
    /// registry would allocate fits in 32 bits, whatever serial a hello
    /// names.
    pub fn ids_available(&self) -> (r: bool)
        requires
            self.wf(),
        ensures
            r == forall|s: Seq<char>| next_id_spec(self@, s) <= u32::MAX,
    {
        let n = self.entries.len();
        let mut i: usize = 0;
        while i < n
            invariant
                i <= n,
                n == self.entries@.len(),
                self.wf(),
                forall|j: int|
                    0 <= j < i ==> (#[trigger] self.entries@[j].clients@).last().0 < u32::MAX,
            decreases n - i,
        {
            let len = self.entries[i].clients.len();
            if self.entries[i].clients[len - 1].0 == u32::MAX {
                proof {
                    let s = self.entries@[i as int].serial@;
                    lemma_entries_view_index(self.entries@, i as int);
                    let slots = slots_view(self.entries@[i as int].clients@);
                    assert(slots.last().0 == u32::MAX);
                    assert(next_id_spec(self@, s) > u32::MAX);
                }
                return false;
            }
            i += 1;
        }
        proof {
            lemma_entries_view_dom(self.entries@);
            assert forall|s: Seq<char>| next_id_spec(self@, s) <= u32::MAX by {
                if self@.dom().contains(s) && self@[s].len() > 0 {
                    let j = choose|j: int|
                        0 <= j < self.entries@.len() && self.entries@[j].serial@ == s;
                    lemma_entries_view_index(self.entries@, j);
                    assert(self@[s] == slots_view(self.entries@[j].clients@));
                    assert(self.entries@[j].clients@.last().0 < u32::MAX);
                    assert(self@[s].last().0 < u32::MAX);
                }
            }
        }
        true
    }

    /// Look up the client registered as (serial, id).
    pub fn get(&self, serial: &[char], id: u32) -> (r: Option<Client>)
        requires
            self.wf(),
        ensures
            match r {
                Some(c) => client_get_spec(self@, serial@, id) == Some(c@),
                None => client_get_spec(self@, serial@, id) is None,
            },
    {
        match self.find_entry(serial) {
            Some(i) => {
                let ghost cs = self.entries@[i as int].clients@;
                let ghost slots = slots_view(cs);
                match self.find_slot(i, id) {
                    Some(k) => {
                        proof {
                            lemma_find_id_found(slots, id, k as int);
                        }
                        Some(self.entries[i].clients[k].1.duplicate())
                    },
                    None => {
                        proof {
                            lemma_find_id_absent(slots, id);
                        }
                        None
                    },
                }
            },
            None => None,
        }
    }

    /// Remove client (serial, id); when the last client of a serial goes,
    /// the serial's entry is reaped. Fails when the serial is absent.
    pub fn remove(&mut self, serial: &[char], id: u32) -> (r: Result<(), BrokerError>)
        requires
            old(self).wf(),
        ensures
            final(self).wf(),
            final(self)@ == client_remove_spec(old(self)@, serial@, id),
            match r {
                Ok(u) => old(self)@.dom().contains(serial@),
                Err(e) => !old(self)@.dom().contains(serial@) && e
                    == BrokerError::InvalidClientSerial,
            },
    {
        let ghost m0 = self@;
        let ghost es0 = self.entries@;
        match self.find_entry(serial) {
            Some(i) => {
                let ghost cs0 = self.entries@[i as int].clients@;
                let ghost slots0 = slots_view(cs0);
                match self.find_slot(i, id) {
                    Some(k) => {
                        proof {
                            lemma_remove_id_found(slots0, id, k as int);
                        }
                        if self.entries[i].clients.len() == 1 {
                            proof {
                                assert(k == 0);
                                assert(remove_id(slots0, id) =~= slots0.remove(0));
                                assert(remove_id(slots0, id).len() == 0);
                                lemma_entries_view_remove_at(es0, i as int);
                            }
                            let _ = self.entries.remove(i);
                            proof {
                                assert(self@ == client_remove_spec(m0, serial@, id));
                                let es1 = self.entries@;
                                assert forall|a: int, b: int| 0 <= a < b < es1.len() implies
                                    es1[a].serial@ != es1[b].serial@ by {
                                    let a0 = if a < i { a } else { a + 1 };
                                    let b0 = if b < i { b } else { b + 1 };
                                    assert(es1[a] == es0[a0] && es1[b] == es0[b0]);
                                    assert(es0[a0].serial@ != es0[b0].serial@);
                                }
                                assert forall|j: int| 0 <= j < es1.len() implies #[trigger] es1[j].clients@.len() > 0 by {
                                    let j0 = if j < i { j } else { j + 1 };
                                    assert(es1[j] == es0[j0]);
                                }
                                assert forall|j: int| 0 <= j < es1.len() implies slots_sorted(
                                    slots_view(#[trigger] es1[j].clients@),
                                ) by {
                                    let j0 = if j < i { j } else { j + 1 };
                                    assert(es1[j] == es0[j0]);
                                    assert(slots_sorted(slots_view(es0[j0].clients@)));
                                }
                            }
                        } else {
                            let _ = self.entries[i].clients.remove(k);
                            proof {
                                let es1 = self.entries@;
                                let e1 = es1[i as int];
                                assert(es1 =~= es0.update(i as int, e1));
                                assert(e1.serial@ == serial@);
                                assert(e1.clients@ =~= cs0.remove(k as int));
                                assert(slots_view(e1.clients@) =~= slots0.remove(k as int));
                                lemma_entries_view_update(es0, i as int, e1);
                                assert(remove_id(slots0, id).len() > 0);
                                assert(self@ == client_remove_spec(m0, serial@, id));
                                assert forall|a: int, b: int| 0 <= a < b < es1.len() implies
                                    es1[a].serial@ != es1[b].serial@ by {
                                    assert(es0[a].serial@ != es0[b].serial@);
                                }
                                let ns = slots0.remove(k as int);
                                assert forall|a: int, b: int| 0 <= a < b < ns.len() implies
                                    ns[a].0 < ns[b].0 by {
                                    let a0 = if a < k { a } else { a + 1 };
                                    let b0 = if b < k { b } else { b + 1 };
                                    assert(ns[a] == slots0[a0] && ns[b] == slots0[b0]);
                                    assert(slots0[a0].0 < slots0[b0].0);
                                }
                                assert forall|j: int| 0 <= j < es1.len() implies #[trigger] es1[j].clients@.len() > 0 by {
                                    if j != i {
                                        assert(es0[j].clients@.len() > 0);
                                    }
                                }
                                assert forall|j: int| 0 <= j < es1.len() implies slots_sorted(
                                    slots_view(#[trigger] es1[j].clients@),
                                ) by {
                                    if j != i {
                                        assert(slots_sorted(slots_view(es0[j].clients@)));
                                    }
                                }
                            }
                        }
                        Ok(())
                    },
                    None => {
                        proof {
                            lemma_remove_id_absent(slots0, id);
                            assert(remove_id(slots0, id).len() > 0);
                            assert(m0.insert(serial@, slots0) =~= m0);
                            assert(self@ == client_remove_spec(m0, serial@, id));
                        }
                        Ok(())
                    },
                }
            },
            None => Err(BrokerError::InvalidClientSerial),
        }
    }
}

/// Serves one connected client: dispatches each of its frames.
#[derive(Debug)]
pub struct ClientHandler {
    pub client: Client,
    pub id: u32,
}

/// What a client dispatch step asks the transport to do: frames to
/// send, and a broadcast binding to start pumping, if one was made.
#[derive(Debug)]
pub struct ClientStep {
    pub sends: Vec<Outbound>,
    pub subscribe: Option<BroadcastHandler>,
}

impl ClientHandler {
    /// Register `client` and keep the allocated id.
    pub fn new(client: Client, cm: &mut ConnectionMap) -> (h: ClientHandler)
        requires
            old(cm).wf(),
            next_id_spec(old(cm).client_map@, client.serial@) <= u32::MAX,
        ensures
            final(cm).wf(),
            h.client@ == client@,
            h.id == next_id_spec(old(cm).client_map@, client.serial@),
            final(cm).client_map@ == client_insert_spec(
                old(cm).client_map@,
                client.serial@,
                h.id,
                client@,
            ),
            final(cm).service_map@ == old(cm).service_map@,
    {
        let c = client.duplicate();
        let id = cm.client_map.insert(client.serial.as_slice(), c);
        ClientHandler { client, id }
    }

    /// Accept a client hello: the whole frame body is the serial. The
    /// client is acknowledged with `@Ok` and registered.
    pub fn from_req(req: &[char], connection: u64, cm: &mut ConnectionMap) -> (r: (
        ClientHandler,
        Outbound,
    ))
        requires
            old(cm).wf(),
            next_id_spec(old(cm).client_map@, req@) <= u32::MAX,
        ensures
            final(cm).wf(),
            r.0.client@ == (ClientV { serial: req@, connection }),
            r.0.id == next_id_spec(old(cm).client_map@, req@),
            final(cm).client_map@ == client_insert_spec(
                old(cm).client_map@,
                req@,
                r.0.id,
                r.0.client@,
            ),
            final(cm).service_map@ == old(cm).service_map@,
            r.1.connection == connection,
            r.1.frame@ == "@Ok"@,
    {
        let client = Client { serial: crate::text::sub_chars(req, 0, req.len()), connection };
        proof {
            assert(client.serial@ =~= req@);
        }
        let ok = Outbound { connection, frame: str_chars("@Ok") };
        let h = Self::new(client, cm);
        (h, ok)
    }

    /// One step on a frame from the client's connection.
    ///
    /// A close deregisters the client and ends the handler. A text
    /// frame that is no request (`&`-prefixed) is answered with
    /// `!Invalid Request`; a request to an unknown service with
    /// `!Invalid Service`. A request to a request service is forwarded
    /// as `<serial>@<id><tag>::<data>` (nothing happens without a
    /// `::<data>` part); one to a broadcast service starts a broadcast
    /// binding for this client.
    pub fn handle(&self, cm: &mut ConnectionMap, msg: Message) -> (r: Result<
        ClientStep,
        BrokerError,
    >)
        requires
            old(cm).wf(),
        ensures
            final(cm).wf(),
            final(cm).service_map@ == old(cm).service_map@,
            match msg@ {
                MessageV::Close => {
                    &&& final(cm).client_map@ == client_remove_spec(
                        old(cm).client_map@,
                        self.client.serial@,
                        self.id,
                    )
                    &&& r == Err::<ClientStep, BrokerError>(
                        if old(cm).client_map@.dom().contains(self.client.serial@) {
                            BrokerError::ConnectionClosed
                        } else {
                            BrokerError::CloseNotRegistered
                        },
                    )
                },
                MessageV::Text(t) => {
                    &&& final(cm).client_map@ == old(cm).client_map@
                    &&& match parse_client_request_spec(t) {
                        None => r matches Ok(st) && st.subscribe is None && st.sends@.len() == 1
                            && st.sends@[0].connection == self.client.connection
                            && st.sends@[0].frame@ == "!Invalid Request"@,
                        Some(req) => {
                            if !old(cm).service_map@.dom().contains(req.name) {
                                r matches Ok(st) && st.subscribe is None && st.sends@.len() == 1
                                    && st.sends@[0].connection == self.client.connection
                                    && st.sends@[0].frame@ == "!Invalid Service"@
                            } else {
                                let svc = old(cm).service_map@[req.name];
                                match svc.service_type {
                                    ServiceType::Request => match req.data {
                                        Some(d) => r matches Ok(st) && st.subscribe is None
                                            && st.sends@.len() == 1 && st.sends@[0].connection
                                            == svc.connection && st.sends@[0].frame@
                                            == request_frame_spec(
                                            self.client.serial@,
                                            self.id,
                                            req.tag,
                                            d,
                                        ),
                                        None => r matches Ok(st) && st.subscribe is None
                                            && st.sends@.len() == 0,
                                    },
                                    ServiceType::Broadcast => r matches Ok(st) && st.sends@.len()
                                        == 0 && (st.subscribe matches Some(h) && h.service@ == svc
                                        && h.client@ == self.client@),
                                }
                            }
                        },
                    }
                },
                MessageV::Binary(b) => {
                    &&& final(cm).client_map@ == old(cm).client_map@
                    &&& r == Err::<ClientStep, BrokerError>(BrokerError::BinaryUnsupported)
                },
                MessageV::Other => {
                    &&& final(cm).client_map@ == old(cm).client_map@
                    &&& r matches Ok(st) && st.sends@.len() == 0 && st.subscribe is None
                },
            },
    {
        match msg {
            Message::Close => {
                match cm.client_map.remove(self.client.serial.as_slice(), self.id) {
                    Ok(_) => Err(BrokerError::ConnectionClosed),
                    Err(_) => Err(BrokerError::CloseNotRegistered),
                }
            },
            Message::Text(t) => {
                match parse_client_request(t.as_slice()) {
                    None => {
                        let mut sends: Vec<Outbound> = Vec::new();
                        sends.push(
                            Outbound {
                                connection: self.client.connection,
                                frame: str_chars("!Invalid Request"),
                            },
                        );
                        Ok(ClientStep { sends, subscribe: None })
                    },
                    Some(cr) => {
                        match cm.service_map.get(cr.name.as_slice()) {
                            Err(_) => {
                                let mut sends: Vec<Outbound> = Vec::new();
                                sends.push(
                                    Outbound {
                                        connection: self.client.connection,
                                        frame: str_chars("!Invalid Service"),
                                    },
                                );
                                Ok(ClientStep { sends, subscribe: None })
                            },
                            Ok(service) => {
                                match service.service_type {
                                    ServiceType::Request => {
                                        match cr.data {
                                            Some(d) => {
                                                let frame = format_request_frame(
                                                    self.client.serial.as_slice(),
                                                    self.id,
                                                    cr.tag.as_slice(),
                                                    d.as_slice(),
                                                );
                                                let mut sends: Vec<Outbound> = Vec::new();
                                                sends.push(
                                                    Outbound {
                                                        connection: service.connection,
                                                        frame,
                                                    },
                                                );
                                                Ok(ClientStep { sends, subscribe: None })
                                            },
                                            None => Ok(
                                                ClientStep { sends: Vec::new(), subscribe: None },
                                            ),
                                        }
                                    },
                                    ServiceType::Broadcast => {
                                        match BroadcastHandler::new(
                                            service,
                                            self.client.duplicate(),
                                        ) {
                                            Ok(h) => Ok(
                                                ClientStep {
                                                    sends: Vec::new(),
                                                    subscribe: Some(h),
                                                },
                                            ),
                                            Err(_) => vstd::pervasive::unreached(),
                                        }
                                    },
                                }
                            },
                        }
                    },
                }
            },
            Message::Binary(_) => Err(BrokerError::BinaryUnsupported),
            Message::Other => Ok(ClientStep { sends: Vec::new(), subscribe: None }),
        }
    }
}

/// Every serial present in a well-formed client registry has at least
/// one client.
pub proof fn lemma_client_map_nonempty(m: &ClientMap)
    requires
        m.wf(),
    ensures
        forall|s: Seq<char>| #[trigger] m@.dom().contains(s) ==> m@[s].len() > 0,
{
    lemma_entries_view_dom(m.entries@);
    assert forall|s: Seq<char>| #[trigger] m@.dom().contains(s) implies m@[s].len() > 0 by {
        let i = choose|i: int| 0 <= i < m.entries@.len() && m.entries@[i].serial@ == s;
        lemma_entries_view_index(m.entries@, i);
        assert(m@[s] == slots_view(m.entries@[i].clients@));
    }
}

/// After the last client of a serial is removed, the serial's entry is
/// reaped, and the next client registered for it gets id 1 again.
pub proof fn lemma_id_restart_after_reap(m: ClientMapV, s: Seq<char>, i: u32)
    requires
        m.dom().contains(s),
        m[s].len() == 1,
        m[s][0].0 == i,
    ensures
        !client_remove_spec(m, s, i).dom().contains(s),
        next_id_spec(client_remove_spec(m, s, i), s) == 1,
{
    assert(remove_id(m[s], i) =~= m[s].skip(1));
    assert(remove_id(m[s], i).len() == 0);
}

/// With unique serials, the registry value maps each entry's serial to
/// that entry's client list.
proof fn lemma_entries_view_index(es: Seq<ClientEntry>, i: int)
    requires
        0 <= i < es.len(),
        forall|a: int, b: int| 0 <= a < b < es.len() ==> es[a].serial@ != es[b].serial@,
    ensures
        entries_view(es).dom().contains(es[i].serial@),
        entries_view(es)[es[i].serial@] == slots_view(es[i].clients@),
    decreases es.len(),
{
    if i < es.len() - 1 {
        let d = es.drop_last();
        assert(forall|a: int, b: int| 0 <= a < b < d.len() ==> d[a].serial@ != d[b].serial@);
        lemma_entries_view_index(d, i);
        assert(es.last().serial@ != es[i].serial@);
    }
}

/// Every serial in the registry value is some entry's serial.
proof fn lemma_entries_view_dom(es: Seq<ClientEntry>)
    ensures
        forall|k: Seq<char>|
            entries_view(es).dom().contains(k) ==> exists|i: int|
                0 <= i < es.len() && es[i].serial@ == k,
    decreases es.len(),
{
    if es.len() > 0 {
        lemma_entries_view_dom(es.drop_last());
        assert forall|k: Seq<char>| entries_view(es).dom().contains(k) implies exists|i: int|
            0 <= i < es.len() && es[i].serial@ == k by {
            if k == es.last().serial@ {
                assert(es[es.len() - 1].serial@ == k);
            } else {
                assert(entries_view(es.drop_last()).dom().contains(k));
                let i = choose|i: int|
                    0 <= i < es.drop_last().len() && es.drop_last()[i].serial@ == k;
                assert(es[i].serial@ == k);
            }
        }
    }
}

/// A serial held by no entry is not in the registry value.
proof fn lemma_entries_view_absent(es: Seq<ClientEntry>, s: Seq<char>)
    requires
        forall|i: int| 0 <= i < es.len() ==> es[i].serial@ != s,
    ensures
        !entries_view(es).dom().contains(s),
    decreases es.len(),
{
    if es.len() > 0 {
        lemma_entries_view_absent(es.drop_last(), s);
    }
}

/// Appending an entry adds its serial to the registry value.
proof fn lemma_entries_view_push(es: Seq<ClientEntry>, e: ClientEntry)
    ensures
        entries_view(es.push(e)) == entries_view(es).insert(e.serial@, slots_view(e.clients@)),
{
    assert(es.push(e).drop_last() =~= es);
    assert(es.push(e).last() == e);
}

/// Replacing an entry under its own serial updates that serial's list.
proof fn lemma_entries_view_update(es: Seq<ClientEntry>, i: int, e: ClientEntry)
    requires
        0 <= i < es.len(),
        e.serial@ == es[i].serial@,
        forall|a: int, b: int| 0 <= a < b < es.len() ==> es[a].serial@ != es[b].serial@,
    ensures
        entries_view(es.update(i, e)) == entries_view(es).insert(
            es[i].serial@,
            slots_view(e.clients@),
        ),
    decreases es.len(),
{
    let k = es[i].serial@;
    if i == es.len() - 1 {
        assert(es.update(i, e).drop_last() =~= es.drop_last());
        assert(es.update(i, e).last() == e);
        assert(entries_view(es.update(i, e)) =~= entries_view(es).insert(k, slots_view(e.clients@)));
    } else {
        let d = es.drop_last();
        assert(forall|a: int, b: int| 0 <= a < b < d.len() ==> d[a].serial@ != d[b].serial@);
        lemma_entries_view_update(d, i, e);
        assert(es.update(i, e).drop_last() =~= d.update(i, e));
        assert(es.update(i, e).last() == es.last());
        assert(es.last().serial@ != k);
        assert(entries_view(es.update(i, e)) =~= entries_view(es).insert(k, slots_view(e.clients@)));
    }
}

/// Taking an entry out takes its serial out of the registry value.
proof fn lemma_entries_view_remove_at(es: Seq<ClientEntry>, i: int)
    requires
        0 <= i < es.len(),
        forall|a: int, b: int| 0 <= a < b < es.len() ==> es[a].serial@ != es[b].serial@,
    ensures
        entries_view(es.remove(i)) == entries_view(es).remove(es[i].serial@),
    decreases es.len(),
{
    let k = es[i].serial@;
    if i == es.len() - 1 {
        assert(es.remove(i) =~= es.drop_last());
        assert(forall|j: int| 0 <= j < es.drop_last().len() ==> es.drop_last()[j].serial@ != k);
        lemma_entries_view_absent(es.drop_last(), k);
        assert(entries_view(es.remove(i)) =~= entries_view(es).remove(k));
    } else {
        let d = es.drop_last();
        assert(forall|a: int, b: int| 0 <= a < b < d.len() ==> d[a].serial@ != d[b].serial@);
        lemma_entries_view_remove_at(d, i);
        assert(es.remove(i).drop_last() =~= d.remove(i));
        assert(es.remove(i).last() == es.last());
        assert(es.last().serial@ != k);
        assert(entries_view(es.remove(i)) =~= entries_view(es).remove(k));
    }
}

/// Removing the first pair that carries `id` is removing its index.
proof fn lemma_remove_id_found(cs: Seq<(u32, ClientV)>, id: u32, k: int)
    requires
        0 <= k < cs.len(),
        cs[k].0 == id,
        forall|j: int| 0 <= j < k ==> cs[j].0 != id,
    ensures
        remove_id(cs, id) == cs.remove(k),
    decreases cs.len(),
{
    if cs[0].0 == id {
        assert(k == 0);
        assert(remove_id(cs, id) =~= cs.remove(0));
    } else {
        let t = cs.skip(1);
        assert(forall|j: int| 0 <= j < t.len() ==> t[j] == cs[j + 1]);
        lemma_remove_id_found(t, id, k - 1);
        assert(remove_id(cs, id) == seq![cs[0]] + t.remove(k - 1));
        assert(seq![cs[0]] + t.remove(k - 1) =~= cs.remove(k));
    }
}

/// Removal by an id that no pair carries changes nothing.
proof fn lemma_remove_id_absent(cs: Seq<(u32, ClientV)>, id: u32)
    requires
        forall|j: int| 0 <= j < cs.len() ==> cs[j].0 != id,
    ensures
        remove_id(cs, id) == cs,
    decreases cs.len(),
{
    if cs.len() > 0 {
        let t = cs.skip(1);
        assert(forall|j: int| 0 <= j < t.len() ==> t[j] == cs[j + 1]);
        lemma_remove_id_absent(t, id);
        assert(seq![cs[0]] + t =~= cs);
    }
}

/// Lookup by id finds the first pair that carries it.
proof fn lemma_find_id_found(cs: Seq<(u32, ClientV)>, id: u32, k: int)
    requires
        0 <= k < cs.len(),
        cs[k].0 == id,
        forall|j: int| 0 <= j < k ==> cs[j].0 != id,
    ensures
        find_id(cs, id) == Some(cs[k].1),
    decreases cs.len(),
{
    if cs[0].0 == id {
        assert(k == 0);
    } else {
        let t = cs.skip(1);
        assert(forall|j: int| 0 <= j < t.len() ==> t[j] == cs[j + 1]);
        lemma_find_id_found(t, id, k - 1);
    }
}

/// Lookup by an id that no pair carries fails.
proof fn lemma_find_id_absent(cs: Seq<(u32, ClientV)>, id: u32)
    requires
        forall|j: int| 0 <= j < cs.len() ==> cs[j].0 != id,
    ensures
        find_id(cs, id) is None,
    decreases cs.len(),
{
    if cs.len() > 0 {
        let t = cs.skip(1);
        assert(forall|j: int| 0 <= j < t.len() ==> t[j] == cs[j + 1]);
        lemma_find_id_absent(t, id);
    }
}

} // verus!
