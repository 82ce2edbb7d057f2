use zeitop::num::{parse_u32, u32_to_dec};
use zeitop::service::{ClientInfo, Reply, Request};
use zeitop::wire::{
    format_broadcast_frame, format_reply_frame, format_request_frame, is_keepalive, split_at_char,
    split_sep, Message,
};

fn cv(s: &str) -> Vec<char> {
    s.chars().collect()
}

#[test]
fn decimal_formatting() {
    assert_eq!(u32_to_dec(0), cv("0"));
    assert_eq!(u32_to_dec(1), cv("1"));
    assert_eq!(u32_to_dec(42), cv("42"));
    assert_eq!(u32_to_dec(4294967295), cv("4294967295"));
}

#[test]
fn decimal_parsing() {
    assert_eq!(parse_u32(&cv("0")), Some(0));
    assert_eq!(parse_u32(&cv("123")), Some(123));
    assert_eq!(parse_u32(&cv("+7")), Some(7));
    assert_eq!(parse_u32(&cv("007")), Some(7));
    assert_eq!(parse_u32(&cv("4294967295")), Some(4294967295));
    assert_eq!(parse_u32(&cv("4294967296")), None);
    assert_eq!(parse_u32(&cv("")), None);
    assert_eq!(parse_u32(&cv("+")), None);
    assert_eq!(parse_u32(&cv("-1")), None);
    assert_eq!(parse_u32(&cv("1a")), None);
    assert_eq!(parse_u32(&cv(" 1")), None);
}

#[test]
fn splits() {
    let r = split_at_char(&cv("name#tag"), '#').expect("has #");
    assert_eq!(r.0, cv("name"));
    assert_eq!(r.1, cv("tag"));
    assert!(split_at_char(&cv("plain"), '#').is_none());
    // the first occurrence decides
    let r = split_at_char(&cv("a#b#c"), '#').expect("has #");
    assert_eq!(r.0, cv("a"));
    assert_eq!(r.1, cv("b#c"));

    let (head, data) = split_sep(&cv("sel::data::more"));
    assert_eq!(head, cv("sel"));
    assert_eq!(data, Some(cv("data::more")));
    let (head, data) = split_sep(&cv("plain"));
    assert_eq!(head, cv("plain"));
    assert_eq!(data, None);
}

#[test]
fn frame_formats() {
    assert_eq!(
        format_request_frame(&cv("dev42"), 1, &cv(""), &cv("uptime")),
        cv("dev42@1::uptime")
    );
    assert_eq!(
        format_request_frame(&cv("dev42"), 1, &cv("#q7"), &cv("uptime")),
        cv("dev42@1#q7::uptime")
    );
    assert_eq!(
        format_reply_frame(&cv("uptime"), &cv("#q7"), &cv("sysinfo"), &cv("123")),
        cv("uptime#q7@sysinfo::123")
    );
    assert_eq!(format_broadcast_frame(&cv("ticker"), &cv("tick-1")), cv("ticker::tick-1"));
}

#[test]
fn keepalive_is_exactly_question_mark() {
    assert!(is_keepalive(&Message::Text(cv("?"))));
    assert!(!is_keepalive(&Message::Text(cv("??"))));
    assert!(!is_keepalive(&Message::Text(cv(""))));
    assert!(!is_keepalive(&Message::Text(cv("x"))));
    assert!(!is_keepalive(&Message::Close));
    assert!(!is_keepalive(&Message::Binary(vec![b'?'])));
}

#[test]
fn forwarded_request_parses_on_the_service_side() {
    let frame = format_request_frame(&cv("dev42"), 1, &cv("#q7"), &cv("uptime"));
    let rq = Request::from_frame(&frame).expect("well-formed");
    assert_eq!(rq.info.serial, cv("dev42"));
    assert_eq!(rq.info.id, 1);
    assert_eq!(rq.tag, cv("#q7"));
    assert_eq!(rq.request, cv("uptime"));

    let untagged = format_request_frame(&cv("dev42"), 1, &cv(""), &cv("uptime"));
    let rq = Request::from_frame(&untagged).expect("well-formed");
    assert_eq!(rq.tag, cv(""));
    assert_eq!(rq.request, cv("uptime"));

    assert!(Request::from_frame(&cv("no separator")).is_none());
    assert!(Request::from_frame(&cv("noat::data")).is_none());
    assert!(Request::from_frame(&cv("dev@notanumber::data")).is_none());
    assert!(Request::from_frame(&cv("dev@1")).is_none());
}

#[test]
fn reply_frames_from_the_embedding_side() {
    let rq = Request { info: ClientInfo { serial: cv("dev42"), id: 1 }, tag: cv("#q7"), request: cv("uptime") };
    assert_eq!(rq.reply_frame(&Reply::Text(cv("123"))), cv("dev42@1&uptime#q7::123"));
    assert_eq!(rq.reply_frame(&Reply::Error(cv("boom"))), cv("dev42@1&uptime#q7::!boom"));
    let untagged = Request { info: ClientInfo { serial: cv("dev42"), id: 1 }, tag: cv(""), request: cv("uptime") };
    assert_eq!(untagged.reply_frame(&Reply::Text(cv("123"))), cv("dev42@1&uptime::123"));
}
