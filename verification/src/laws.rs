//! Cross-cutting laws of the broker: the request/reply round trip, and
//! keepalive suppression.

use crate::wire::{
    is_keepalive_spec, lemma_client_request_round_trip, lemma_forwarded_round_trip,
    lemma_service_reply_round_trip, no_char, no_sep, parse_client_request_spec,
    parse_forwarded_spec, parse_service_reply_spec, request_frame_spec, sep_safe, sep_seq,
    service_reply_frame_spec, wf_tag, ClientRequestV, ForwardedV, MessageV, ServiceReplyV,
};
use vstd::prelude::*;

verus! {

/// The request/reply round trip.
///
/// Law: let client (serial, id) send `&<name><tag>::<data>` for a
/// registered request service `name`, and let the service answer with
/// the reply frame addressed to (serial, id) carrying `reply`. Then,
/// writing `tag` for the optional `#`-prefixed tag (empty when absent):
///
/// - the request parses at the broker to exactly (name, tag, data), so
///   by the client handler's contract the broker forwards exactly
///   `<serial>@<id><tag>::<data>` to the service's connection;
/// - that frame parses on the service side to exactly
///   (serial, id, tag, data);
/// - the service's reply `<serial>@<id>&<data><tag>::<reply>` parses at
///   the broker to exactly (serial, id, data, tag, reply), so by the
///   request handler's contract the broker forwards exactly
///   `<data><tag>@<name>::<reply>` to that client, and — the handler's
///   contract being an exact case split — to no one else and in no
///   other case.
///
/// The hypotheses are the wire grammar's conditions on the fields: the
/// delimiters each split inserts must not occur earlier in what
/// precedes them.
pub proof fn lemma_request_reply_round_trip(
    serial: Seq<char>,
    id: u32,
    name: Seq<char>,
    tag: Seq<char>,
    data: Seq<char>,
    reply: Seq<char>,
)
    requires
        no_char(name, '#'),
        wf_tag(tag),
        sep_safe(name + tag),
        sep_safe(tag),
        no_char(serial, '@'),
        no_sep(serial),
        no_char(data, '#'),
        sep_safe(data + tag),
    ensures
        parse_client_request_spec(seq!['&'] + name + tag + sep_seq() + data) == Some(
            ClientRequestV { name, tag, data: Some(data) },
        ),
        parse_forwarded_spec(request_frame_spec(serial, id, tag, data)) == Some(
            ForwardedV { serial, id, tag, request: data },
        ),
        parse_service_reply_spec(service_reply_frame_spec(serial, id, data, tag, reply)) == Some(
            ServiceReplyV { serial, id, request: data, tag, payload: Some(reply) },
        ),
{
    lemma_client_request_round_trip(name, tag, data);
    lemma_forwarded_round_trip(serial, id, tag, data);
    lemma_service_reply_round_trip(serial, id, data, tag, reply);
}

/// Whether a frame is passed on to handlers: everything but the
/// keepalive ping.
pub open spec fn reaches_handlers(m: MessageV) -> bool {
    !is_keepalive_spec(m)
}

/// The frames of an inbound stream that reach the handlers, in order.
pub open spec fn handler_stream_spec(s: Seq<MessageV>) -> Seq<MessageV> {
    s.filter(|m: MessageV| reaches_handlers(m))
}

/// Keepalive suppression.
///
/// Law: a text frame of exactly `?` never reaches any handler — no
/// element of the handler stream is the keepalive ping, whatever
/// arrived on the connection.
pub proof fn lemma_keepalive_never_reaches_handlers(s: Seq<MessageV>)
    ensures
        forall|i: int|
            0 <= i < handler_stream_spec(s).len() ==> !is_keepalive_spec(
                #[trigger] handler_stream_spec(s)[i],
            ),
{
    assert forall|i: int|
        0 <= i < handler_stream_spec(s).len() implies !is_keepalive_spec(
        handler_stream_spec(s)[i],
    ) by {
        s.lemma_filter_pred(|m: MessageV| reaches_handlers(m), i);
    }
}

} // verus!
