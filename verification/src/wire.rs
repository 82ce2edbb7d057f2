//! The text wire grammar: frames, the splits the protocol is built on,
//! the frame formats the broker writes, and the parses it applies to
//! inbound text.
//!
//! Delimiters: a request names its service with a leading `&` and
//! separates selector from payload with the first `::`; a selector
//! carries an optional tag after the first `#`; an address pairs serial
//! and id around the first `@`; a service reply carries the original
//! request after the first `&`.

use crate::num::{dec_digits, parse_u32, parse_u32_spec, push_dec};
use crate::text::{
    find_char, find_char_spec, find_sep, find_sep_spec, lemma_find_char_spec,
    lemma_find_char_spec_absent, lemma_find_char_spec_first, lemma_find_sep_spec,
    lemma_find_sep_spec_first, sep_at, sub_chars,
};
use vstd::prelude::*;

verus! {

/// A frame as the broker's handlers see it: the payload of a text or
/// binary message, a close, or anything else (pings, pongs), which every
/// handler ignores.
pub enum Message {
    Text(Vec<char>),
    Binary(Vec<u8>),
    Close,
    Other,
}

/// Mathematical value of a `Message`.
pub ghost enum MessageV {
    Text(Seq<char>),
    Binary(Seq<u8>),
    Close,
    Other,
}

impl View for Message {
    type V = MessageV;

    open spec fn view(&self) -> MessageV {
        match self {
            Message::Text(t) => MessageV::Text(t@),
            Message::Binary(b) => MessageV::Binary(b@),
            Message::Close => MessageV::Close,
            Message::Other => MessageV::Other,
        }
    }
}

/// Whether a frame is the keepalive ping: a text frame of exactly `?`.
pub open spec fn is_keepalive_spec(m: MessageV) -> bool {
    m == MessageV::Text(seq![crate::keepalive_char()])
}

/// Whether a frame is the keepalive ping.
pub fn is_keepalive(m: &Message) -> (r: bool)
    ensures
        r == is_keepalive_spec(m@),
{
    match m {
        Message::Text(t) => {
            if t.len() == 1 && t[0] == '?' {
                proof {
                    assert(t@ =~= seq![crate::keepalive_char()]);
                }
                true
            } else {
                proof {
                    if t@ == seq![crate::keepalive_char()] {
                        assert(t@.len() == 1 && t@[0] == '?');
                    }
                }
                false
            }
        },
        _ => false,
    }
}

/// No character of `s` is `c`.
pub open spec fn no_char(s: Seq<char>, c: char) -> bool {
    forall|j: int| 0 <= j < s.len() ==> s[j] != c
}

/// The separator `::` does not occur in `s`.
pub open spec fn no_sep(s: Seq<char>) -> bool {
    forall|j: int| !sep_at(s, j)
}

/// `s` can stand immediately before an inserted `::` without forming an
/// earlier separator: it holds none itself and does not end in `:`.
pub open spec fn sep_safe(s: Seq<char>) -> bool {
    no_sep(s) && (s.len() == 0 || s.last() != ':')
}

/// The two-character separator.
pub open spec fn sep_seq() -> Seq<char> {
    seq![':', ':']
}

/// Split at the first occurrence of `c`: the parts before and after it.
pub open spec fn split_at_char_spec(s: Seq<char>, c: char) -> Option<(Seq<char>, Seq<char>)> {
    match find_char_spec(s, c) {
        None => None,
        Some(i) => Some((s.subrange(0, i), s.subrange(i + 1, s.len() as int))),
    }
}

/// Split at the first `::`: the part before it, and the part after it
/// when it occurs at all.
pub open spec fn split_sep_spec(s: Seq<char>) -> (Seq<char>, Option<Seq<char>>) {
    match find_sep_spec(s) {
        None => (s, None),
        Some(i) => (s.subrange(0, i), Some(s.subrange(i + 2, s.len() as int))),
    }
}

/// Split at the first occurrence of `c`.
pub fn split_at_char(s: &[char], c: char) -> (r: Option<(Vec<char>, Vec<char>)>)
    ensures
        match r {
            Some(p) => split_at_char_spec(s@, c) == Some((p.0@, p.1@)),
            None => split_at_char_spec(s@, c) is None,
        },
{
    let n = s.len();
    match find_char(s, c) {
        Some(i) => {
            proof {
                lemma_find_char_spec(s@, c);
                assert(i < n);
            }
            let before = sub_chars(s, 0, i);
            let after = sub_chars(s, i + 1, n);
            Some((before, after))
        },
        None => None,
    }
}

/// Split at the first `::`.
pub fn split_sep(s: &[char]) -> (r: (Vec<char>, Option<Vec<char>>))
    ensures
        r.0@ == split_sep_spec(s@).0,
        match r.1 {
            Some(d) => split_sep_spec(s@).1 == Some(d@),
            None => split_sep_spec(s@).1 is None,
        },
{
    let n = s.len();
    match find_sep(s) {
        Some(i) => {
            proof {
                lemma_find_sep_spec(s@);
                assert(sep_at(s@, i as int));
                assert(i + 1 < n);
            }
            let before = sub_chars(s, 0, i);
            let after = sub_chars(s, i + 2, n);
            (before, Some(after))
        },
        None => {
            let whole = sub_chars(s, 0, s.len());
            proof {
                assert(whole@ =~= s@);
            }
            (whole, None)
        },
    }
}

// ---------------------------------------------------------------------
// Splitting around an inserted delimiter.
// ---------------------------------------------------------------------

/// Splitting `a + [c] + b` at `c` yields `(a, b)` when `a` holds no `c`.
pub proof fn lemma_split_at_char_concat(a: Seq<char>, c: char, b: Seq<char>)
    requires
        no_char(a, c),
    ensures
        split_at_char_spec(a + seq![c] + b, c) == Some((a, b)),
{
    let s = a + seq![c] + b;
    assert(s[a.len() as int] == c);
    lemma_find_char_spec_first(s, c, a.len() as int);
    assert(s.subrange(0, a.len() as int) =~= a);
    assert(s.subrange(a.len() as int + 1, s.len() as int) =~= b);
}

/// Splitting at a character that does not occur fails.
pub proof fn lemma_split_at_char_absent(s: Seq<char>, c: char)
    requires
        no_char(s, c),
    ensures
        split_at_char_spec(s, c) is None,
{
    lemma_find_char_spec_absent(s, c);
}

/// Splitting `a + :: + b` at the separator yields `(a, Some(b))` when
/// `a` can stand before an inserted separator.
pub proof fn lemma_split_sep_concat(a: Seq<char>, b: Seq<char>)
    requires
        sep_safe(a),
    ensures
        split_sep_spec(a + sep_seq() + b) == (a, Some(b)),
{
    let s = a + sep_seq() + b;
    assert(s[a.len() as int] == ':' && s[a.len() as int + 1] == ':');
    assert(sep_at(s, a.len() as int));
    assert forall|j: int| 0 <= j < a.len() implies !sep_at(s, j) by {
        if j + 1 < a.len() {
            assert(s[j] == a[j] && s[j + 1] == a[j + 1]);
            assert(!sep_at(a, j));
        } else {
            assert(j == a.len() - 1);
            assert(s[j] == a[a.len() - 1]);
            assert(a.last() != ':');
        }
    }
    lemma_find_sep_spec_first(s, a.len() as int);
    assert(s.subrange(0, a.len() as int) =~= a);
    assert(s.subrange(a.len() as int + 2, s.len() as int) =~= b);
}

/// Concatenation keeps the separator out when each part lacks it and the
/// junction does not form one.
pub proof fn lemma_no_sep_concat(a: Seq<char>, b: Seq<char>)
    requires
        no_sep(a),
        no_sep(b),
        a.len() == 0 || b.len() == 0 || !(a.last() == ':' && b[0] == ':'),
    ensures
        no_sep(a + b),
{
    let s = a + b;
    assert forall|j: int| !sep_at(s, j) by {
        if 0 <= j && j + 1 < s.len() {
            if j + 1 < a.len() {
                assert(s[j] == a[j] && s[j + 1] == a[j + 1]);
                assert(!sep_at(a, j));
            } else if j < a.len() {
                assert(j == a.len() - 1 && s[j] == a.last() && s[j + 1] == b[0]);
            } else {
                assert(s[j] == b[j - a.len()] && s[j + 1] == b[j + 1 - a.len()]);
                assert(!sep_at(b, j - a.len()));
            }
        }
    }
}

/// A tag is either absent (empty) or `#` followed by its body.
pub open spec fn wf_tag(tag: Seq<char>) -> bool {
    tag.len() == 0 || tag[0] == '#'
}

// ---------------------------------------------------------------------
// Frame formats.
// ---------------------------------------------------------------------

/// Frame the broker forwards to a request service:
/// `<serial>@<id><tag>::<data>`.
pub open spec fn request_frame_spec(
    serial: Seq<char>,
    id: u32,
    tag: Seq<char>,
    data: Seq<char>,
) -> Seq<char> {
    serial + seq!['@'] + dec_digits(id as int) + tag + sep_seq() + data
}

/// Frame the broker forwards to a client in reply:
/// `<request><tag>@<name>::<payload>`.
pub open spec fn reply_frame_spec(
    request: Seq<char>,
    tag: Seq<char>,
    name: Seq<char>,
    payload: Seq<char>,
) -> Seq<char> {
    request + tag + seq!['@'] + name + sep_seq() + payload
}

/// Frame a broadcast subscriber receives: `<name>::<payload>`.
pub open spec fn broadcast_frame_spec(name: Seq<char>, payload: Seq<char>) -> Seq<char> {
    name + sep_seq() + payload
}

/// Frame a service sends to answer a request:
/// `<serial>@<id>&<request><tag>::<payload>`.
pub open spec fn service_reply_frame_spec(
    serial: Seq<char>,
    id: u32,
    request: Seq<char>,
    tag: Seq<char>,
    payload: Seq<char>,
) -> Seq<char> {
    serial + seq!['@'] + dec_digits(id as int) + seq!['&'] + request + tag + sep_seq() + payload
}

/// Frame a service registers itself with: `+<name>::<type>`.
pub open spec fn service_hello_frame_spec(
    name: Seq<char>,
    service_type: crate::service::ServiceType,
) -> Seq<char> {
    seq!['+'] + name + sep_seq() + type_token_spec(service_type)
}

/// The type token of a service hello.
pub open spec fn type_token_spec(service_type: crate::service::ServiceType) -> Seq<char> {
    match service_type {
        crate::service::ServiceType::Request => "request"@,
        crate::service::ServiceType::Broadcast => "broadcast"@,
    }
}

/// Format the frame the broker forwards to a request service.
pub fn format_request_frame(serial: &[char], id: u32, tag: &[char], data: &[char]) -> (r: Vec<
    char,
>)
    ensures
        r@ == request_frame_spec(serial@, id, tag@, data@),
{
    let mut r: Vec<char> = Vec::new();
    r.extend_from_slice(serial);
    r.push('@');
    push_dec(id, &mut r);
    r.extend_from_slice(tag);
    r.push(':');
    r.push(':');
    r.extend_from_slice(data);
    proof {
        assert(r@ =~= request_frame_spec(serial@, id, tag@, data@));
    }
    r
}

/// Format the frame the broker forwards to a client in reply.
pub fn format_reply_frame(request: &[char], tag: &[char], name: &[char], payload: &[char]) -> (r:
    Vec<char>)
    ensures
        r@ == reply_frame_spec(request@, tag@, name@, payload@),
{
    let mut r: Vec<char> = Vec::new();
    r.extend_from_slice(request);
    r.extend_from_slice(tag);
    r.push('@');
    r.extend_from_slice(name);
    r.push(':');
    r.push(':');
    r.extend_from_slice(payload);
    proof {
        assert(r@ =~= reply_frame_spec(request@, tag@, name@, payload@));
    }
    r
}

/// Format the frame a broadcast subscriber receives.
pub fn format_broadcast_frame(name: &[char], payload: &[char]) -> (r: Vec<char>)
    ensures
        r@ == broadcast_frame_spec(name@, payload@),
{
    let mut r: Vec<char> = Vec::new();
    r.extend_from_slice(name);
    r.push(':');
    r.push(':');
    r.extend_from_slice(payload);
    proof {
        assert(r@ =~= broadcast_frame_spec(name@, payload@));
    }
    r
}

/// Format the frame a service answers a request with; `error` prefixes
/// the payload with `!`.
pub fn format_service_reply_frame(
    serial: &[char],
    id: u32,
    request: &[char],
    tag: &[char],
    payload: &[char],
    error: bool,
) -> (r: Vec<char>)
    ensures
        !error ==> r@ == service_reply_frame_spec(serial@, id, request@, tag@, payload@),
        error ==> r@ == service_reply_frame_spec(serial@, id, request@, tag@, seq!['!'] + payload@),
{
    let mut r: Vec<char> = Vec::new();
    r.extend_from_slice(serial);
    r.push('@');
    push_dec(id, &mut r);
    r.push('&');
    r.extend_from_slice(request);
    r.extend_from_slice(tag);
    r.push(':');
    r.push(':');
    if error {
        r.push('!');
    }
    r.extend_from_slice(payload);
    proof {
        if error {
            assert(r@ =~= service_reply_frame_spec(
                serial@,
                id,
                request@,
                tag@,
                seq!['!'] + payload@,
            ));
        } else {
            assert(r@ =~= service_reply_frame_spec(serial@, id, request@, tag@, payload@));
        }
    }
    r
}

/// Format the hello frame a service registers itself with.
pub fn format_service_hello_frame(name: &[char], service_type: crate::service::ServiceType) -> (r:
    Vec<char>)
    ensures
        r@ == service_hello_frame_spec(name@, service_type),
{
    let mut r: Vec<char> = Vec::new();
    r.push('+');
    r.extend_from_slice(name);
    r.push(':');
    r.push(':');
    match service_type {
        crate::service::ServiceType::Request => {
            let tok = crate::text::str_chars("request");
            r.extend_from_slice(tok.as_slice());
        },
        crate::service::ServiceType::Broadcast => {
            let tok = crate::text::str_chars("broadcast");
            r.extend_from_slice(tok.as_slice());
        },
    }
    proof {
        assert(r@ =~= service_hello_frame_spec(name@, service_type));
    }
    r
}

// ---------------------------------------------------------------------
// Parses.
// ---------------------------------------------------------------------

/// A parsed client request `&<name>[#<t>]::<data>`: the service
/// selector's name, the tag (`#` and what follows it, or empty), and
/// the payload after the first `::`, when one occurs.
pub struct ClientRequest {
    pub name: Vec<char>,
    pub tag: Vec<char>,
    pub data: Option<Vec<char>>,
}

/// Mathematical value of a `ClientRequest`.
#[verifier::ext_equal]
pub ghost struct ClientRequestV {
    pub name: Seq<char>,
    pub tag: Seq<char>,
    pub data: Option<Seq<char>>,
}

impl View for ClientRequest {
    type V = ClientRequestV;

    open spec fn view(&self) -> ClientRequestV {
        ClientRequestV {
            name: self.name@,
            tag: self.tag@,
            data: match self.data {
                Some(d) => Some(d@),
                None => None,
            },
        }
    }
}

/// What the client-request parse yields: `None` unless the frame starts
/// with `&`; then the selector before the first `::` is split at the
/// first `#` into name and tag.
pub open spec fn parse_client_request_spec(t: Seq<char>) -> Option<ClientRequestV> {
    if t.len() == 0 || t[0] != '&' {
        None
    } else {
        let body = t.subrange(1, t.len() as int);
        let sd = split_sep_spec(body);
        match split_at_char_spec(sd.0, '#') {
            Some(p) => Some(ClientRequestV { name: p.0, tag: seq!['#'] + p.1, data: sd.1 }),
            None => Some(ClientRequestV { name: sd.0, tag: Seq::empty(), data: sd.1 }),
        }
    }
}

/// Parse a client request frame.
pub fn parse_client_request(t: &[char]) -> (r: Option<ClientRequest>)
    ensures
        match r {
            Some(cr) => parse_client_request_spec(t@) == Some(cr@),
            None => parse_client_request_spec(t@) is None,
        },
{
    if t.len() == 0 {
        return None;
    }
    if t[0] != '&' {
        return None;
    }
    let body = sub_chars(t, 1, t.len());
    let (sel, data) = split_sep(body.as_slice());
    match split_at_char(sel.as_slice(), '#') {
        Some((name, after)) => {
            let mut tag: Vec<char> = Vec::new();
            tag.push('#');
            tag.extend_from_slice(after.as_slice());
            proof {
                assert(tag@ =~= seq!['#'] + after@);
            }
            Some(ClientRequest { name, tag, data })
        },
        None => Some(ClientRequest { name: sel, tag: Vec::new(), data }),
    }
}

/// A parsed service reply `<serial>@<id>&<request>[#<t>]::<payload>`:
/// the addressed client, the original request and tag, and the payload
/// after the first `::`, when one occurs.
pub struct ServiceReply {
    pub serial: Vec<char>,
    pub id: u32,
    pub request: Vec<char>,
    pub tag: Vec<char>,
    pub payload: Option<Vec<char>>,
}

/// Mathematical value of a `ServiceReply`.
#[verifier::ext_equal]
pub ghost struct ServiceReplyV {
    pub serial: Seq<char>,
    pub id: u32,
    pub request: Seq<char>,
    pub tag: Seq<char>,
    pub payload: Option<Seq<char>>,
}

impl View for ServiceReply {
    type V = ServiceReplyV;

    open spec fn view(&self) -> ServiceReplyV {
        ServiceReplyV {
            serial: self.serial@,
            id: self.id,
            request: self.request@,
            tag: self.tag@,
            payload: match self.payload {
                Some(d) => Some(d@),
                None => None,
            },
        }
    }
}

/// What the service-reply parse yields: the part before the first `::`
/// must split at `@`, then at `&`, and the id field must parse; the
/// part after the first `&` splits at the first `#` into request and
/// tag. `None` stands for a malformed destination.
pub open spec fn parse_service_reply_spec(t: Seq<char>) -> Option<ServiceReplyV> {
    let sd = split_sep_spec(t);
    match split_at_char_spec(sd.0, '@') {
        None => None,
        Some(sa) => match split_at_char_spec(sa.1, '&') {
            None => None,
            Some(ir) => match parse_u32_spec(ir.0) {
                None => None,
                Some(id) => match split_at_char_spec(ir.1, '#') {
                    Some(rt) => Some(
                        ServiceReplyV {
                            serial: sa.0,
                            id,
                            request: rt.0,
                            tag: seq!['#'] + rt.1,
                            payload: sd.1,
                        },
                    ),
                    None => Some(
                        ServiceReplyV {
                            serial: sa.0,
                            id,
                            request: ir.1,
                            tag: Seq::empty(),
                            payload: sd.1,
                        },
                    ),
                },
            },
        },
    }
}

/// Parse a service reply frame.
pub fn parse_service_reply(t: &[char]) -> (r: Option<ServiceReply>)
    ensures
        match r {
            Some(sr) => parse_service_reply_spec(t@) == Some(sr@),
            None => parse_service_reply_spec(t@) is None,
        },
{
    let (head, payload) = split_sep(t);
    let sa = match split_at_char(head.as_slice(), '@') {
        Some(sa) => sa,
        None => {
            return None;
        },
    };
    let (serial, rest) = sa;
    let ir = match split_at_char(rest.as_slice(), '&') {
        Some(ir) => ir,
        None => {
            return None;
        },
    };
    let (idpart, rt) = ir;
    let id = match parse_u32(idpart.as_slice()) {
        Some(id) => id,
        None => {
            return None;
        },
    };
    match split_at_char(rt.as_slice(), '#') {
        Some((request, after)) => {
            let mut tag: Vec<char> = Vec::new();
            tag.push('#');
            tag.extend_from_slice(after.as_slice());
            proof {
                assert(tag@ =~= seq!['#'] + after@);
            }
            Some(ServiceReply { serial, id, request, tag, payload })
        },
        None => Some(ServiceReply { serial, id, request: rt, tag: Vec::new(), payload }),
    }
}

/// Splitting `name + tag` at the first `#` recovers name and tag.
proof fn lemma_tag_split(name: Seq<char>, tag: Seq<char>)
    requires
        no_char(name, '#'),
        wf_tag(tag),
    ensures
        match split_at_char_spec(name + tag, '#') {
            Some(p) => tag.len() > 0 && p.0 == name && seq!['#'] + p.1 == tag,
            None => tag.len() == 0 && name + tag == name,
        },
{
    if tag.len() == 0 {
        assert(name + tag =~= name);
        lemma_split_at_char_absent(name, '#');
    } else {
        let rest = tag.subrange(1, tag.len() as int);
        assert(name + tag =~= name + seq!['#'] + rest);
        lemma_split_at_char_concat(name, '#', rest);
        assert(seq!['#'] + rest =~= tag);
    }
}

/// Parsing a formatted client request recovers its parts.
///
/// Law: for a service name without `#`, and a selector that cannot form
/// an early `::`, the request frame `&<name><tag>::<data>` parses to
/// exactly that name, tag and payload.
pub proof fn lemma_client_request_round_trip(name: Seq<char>, tag: Seq<char>, data: Seq<char>)
    requires
        no_char(name, '#'),
        wf_tag(tag),
        sep_safe(name + tag),
    ensures
        parse_client_request_spec(seq!['&'] + name + tag + sep_seq() + data) == Some(
            ClientRequestV { name, tag, data: Some(data) },
        ),
{
    let t = seq!['&'] + name + tag + sep_seq() + data;
    assert(t[0] == '&');
    let body = t.subrange(1, t.len() as int);
    assert(body =~= (name + tag) + sep_seq() + data);
    lemma_split_sep_concat(name + tag, data);
    lemma_tag_split(name, tag);
    match parse_client_request_spec(t) {
        Some(v) => {
            assert(v =~= ClientRequestV { name, tag, data: Some(data) });
        },
        None => {
            assert(false);
        },
    }
}

/// Parsing a formatted service reply recovers the addressed client, the
/// original request, the tag and the payload.
///
/// Law: the reply frame `<serial>@<id>&<request><tag>::<payload>` a
/// service formats parses back to exactly those parts, for any serial
/// without `@` or `::` and any request and tag that cannot form an
/// early `::`.
pub proof fn lemma_service_reply_round_trip(
    serial: Seq<char>,
    id: u32,
    request: Seq<char>,
    tag: Seq<char>,
    payload: Seq<char>,
)
    requires
        no_char(serial, '@'),
        no_sep(serial),
        no_char(request, '#'),
        wf_tag(tag),
        sep_safe(request + tag),
    ensures
        parse_service_reply_spec(service_reply_frame_spec(serial, id, request, tag, payload))
            == Some(
            ServiceReplyV { serial, id, request, tag, payload: Some(payload) },
        ),
{
    let digits = dec_digits(id as int);
    crate::num::lemma_dec_digits_no_delims(id as int);
    let head = serial + seq!['@'] + digits + seq!['&'] + request + tag;
    let t = service_reply_frame_spec(serial, id, request, tag, payload);
    assert(t =~= head + sep_seq() + payload);
    // the head cannot form an early separator
    assert(no_sep(seq!['@'] + digits + seq!['&']));
    lemma_no_sep_concat(serial, seq!['@'] + digits + seq!['&']);
    assert(serial + (seq!['@'] + digits + seq!['&']) =~= serial + seq!['@'] + digits + seq!['&']);
    lemma_no_sep_concat(serial + seq!['@'] + digits + seq!['&'], request + tag);
    assert((serial + seq!['@'] + digits + seq!['&']) + (request + tag) =~= head);
    assert(sep_safe(head));
    lemma_split_sep_concat(head, payload);
    // the head splits at the inserted @
    assert(head =~= serial + seq!['@'] + (digits + seq!['&'] + request + tag));
    lemma_split_at_char_concat(serial, '@', digits + seq!['&'] + request + tag);
    // the rest splits at the inserted &
    assert(digits + seq!['&'] + request + tag =~= digits + seq!['&'] + (request + tag));
    lemma_split_at_char_concat(digits, '&', request + tag);
    // the id field parses back
    crate::num::lemma_dec_round_trip(id);
    // request and tag come apart at the first #
    lemma_tag_split(request, tag);
    match parse_service_reply_spec(t) {
        Some(v) => {
            assert(v =~= ServiceReplyV { serial, id, request, tag, payload: Some(payload) });
        },
        None => {
            assert(false);
        },
    }
}

/// Parsing the frame the broker forwards to a request service recovers
/// the originating client, the tag and the payload.
///
/// Law: the forwarded frame `<serial>@<id><tag>::<data>` parses on the
/// service side to exactly those parts, for any serial without `@` or
/// `::` and any tag that cannot form an early `::`.
pub proof fn lemma_forwarded_round_trip(serial: Seq<char>, id: u32, tag: Seq<char>, data: Seq<char>)
    requires
        no_char(serial, '@'),
        no_sep(serial),
        wf_tag(tag),
        sep_safe(tag),
    ensures
        parse_forwarded_spec(request_frame_spec(serial, id, tag, data)) == Some(
            ForwardedV { serial, id, tag, request: data },
        ),
{
    let digits = dec_digits(id as int);
    crate::num::lemma_dec_digits_no_delims(id as int);
    let head = serial + seq!['@'] + digits + tag;
    let t = request_frame_spec(serial, id, tag, data);
    assert(t =~= head + sep_seq() + data);
    // the head cannot form an early separator
    assert(no_sep(seq!['@'] + digits));
    lemma_no_sep_concat(serial, seq!['@'] + digits);
    assert(serial + (seq!['@'] + digits) =~= serial + seq!['@'] + digits);
    lemma_no_sep_concat(serial + seq!['@'] + digits, tag);
    assert((serial + seq!['@'] + digits) + tag =~= head);
    assert(sep_safe(head));
    lemma_split_sep_concat(head, data);
    // the head splits at the inserted @
    assert(head =~= serial + seq!['@'] + (digits + tag));
    lemma_split_at_char_concat(serial, '@', digits + tag);
    // digits and tag come apart at the first #
    lemma_tag_split(digits, tag);
    // the id field parses back
    crate::num::lemma_dec_round_trip(id);
    match parse_forwarded_spec(t) {
        Some(v) => {
            assert(v =~= ForwardedV { serial, id, tag, request: data });
        },
        None => {
            assert(false);
        },
    }
}

/// A parsed forwarded request `<serial>@<id>[#<t>]::<data>` as a
/// request service reads it back: the originating client, the tag, and
/// the payload. `None` when the address or payload is missing.
#[verifier::ext_equal]
pub ghost struct ForwardedV {
    pub serial: Seq<char>,
    pub id: u32,
    pub tag: Seq<char>,
    pub request: Seq<char>,
}

/// What the forwarded-request parse yields on the service side.
pub open spec fn parse_forwarded_spec(t: Seq<char>) -> Option<ForwardedV> {
    let sd = split_sep_spec(t);
    match split_at_char_spec(sd.0, '@') {
        None => None,
        Some(sa) => {
            let it = match split_at_char_spec(sa.1, '#') {
                Some(p) => (p.0, seq!['#'] + p.1),
                None => (sa.1, Seq::<char>::empty()),
            };
            match parse_u32_spec(it.0) {
                None => None,
                Some(id) => match sd.1 {
                    None => None,
                    Some(d) => Some(ForwardedV { serial: sa.0, id, tag: it.1, request: d }),
                },
            }
        },
    }
}

} // verus!
