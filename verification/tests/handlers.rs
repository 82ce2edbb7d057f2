use zeitop::server::{accept_hello, AcceptOutcome, ConnectionMap};
use zeitop::wire::Message;
use zeitop::BrokerError;

fn cv(s: &str) -> Vec<char> {
    s.chars().collect()
}

fn text(s: &str) -> Message {
    Message::Text(cv(s))
}

/// Run a hello and expect a registered client handler.
fn hello_client(cm: &mut ConnectionMap, connection: u64, serial: &str) -> zeitop::client::ClientHandler {
    let step = accept_hello(cm, connection, text(serial));
    assert_eq!(step.sends.len(), 1);
    assert_eq!(step.sends[0].connection, connection);
    assert_eq!(step.sends[0].frame, cv("@Ok"));
    match step.outcome {
        AcceptOutcome::Client(h) => h,
        _ => panic!("expected a client"),
    }
}

/// Run a hello and expect a registered service.
fn hello_service(
    cm: &mut ConnectionMap,
    connection: u64,
    frame: &str,
) -> Option<zeitop::service::RequestHandler> {
    let step = accept_hello(cm, connection, text(frame));
    assert_eq!(step.sends.len(), 0);
    match step.outcome {
        AcceptOutcome::Service(h) => h,
        _ => panic!("expected a service"),
    }
}

#[test]
fn hello_gets_ok_before_anything_else() {
    let mut cm = ConnectionMap::new();
    let step = accept_hello(&mut cm, 1, text("dev42"));
    // the acknowledgement is the first and only frame of the hello step
    assert_eq!(step.sends.len(), 1);
    assert_eq!(step.sends[0].frame, cv("@Ok"));
    assert!(matches!(step.outcome, AcceptOutcome::Client(_)));
}

#[test]
fn happy_path_request_reply() {
    let mut cm = ConnectionMap::new();
    let rh = hello_service(&mut cm, 10, "+sysinfo::request").expect("request handler");
    let ch = hello_client(&mut cm, 1, "dev42");
    assert_eq!(ch.id, 1);

    // client asks; the broker forwards to the service's connection
    let step = ch.handle(&mut cm, text("&sysinfo::uptime")).expect("dispatch");
    assert_eq!(step.sends.len(), 1);
    assert_eq!(step.sends[0].connection, 10);
    assert_eq!(step.sends[0].frame, cv("dev42@1::uptime"));
    assert!(step.subscribe.is_none());

    // the service answers; the broker forwards to the client
    let sends = rh.handle(&mut cm, text("dev42@1&uptime::123")).expect("reply");
    assert_eq!(sends.len(), 1);
    assert_eq!(sends[0].connection, 1);
    assert_eq!(sends[0].frame, cv("uptime@sysinfo::123"));
}

#[test]
fn tagged_request_reply() {
    let mut cm = ConnectionMap::new();
    let rh = hello_service(&mut cm, 10, "+sysinfo::request").expect("request handler");
    let ch = hello_client(&mut cm, 1, "dev42");

    let step = ch.handle(&mut cm, text("&sysinfo#q7::uptime")).expect("dispatch");
    assert_eq!(step.sends[0].frame, cv("dev42@1#q7::uptime"));

    let sends = rh.handle(&mut cm, text("dev42@1&uptime#q7::123")).expect("reply");
    assert_eq!(sends[0].connection, 1);
    assert_eq!(sends[0].frame, cv("uptime#q7@sysinfo::123"));
}

#[test]
fn unknown_service_is_rejected() {
    let mut cm = ConnectionMap::new();
    let ch = hello_client(&mut cm, 1, "dev42");
    let step = ch.handle(&mut cm, text("&nope::x")).expect("diagnostic");
    assert_eq!(step.sends.len(), 1);
    // the diagnostic goes back to the client, nothing to any service
    assert_eq!(step.sends[0].connection, 1);
    assert_eq!(step.sends[0].frame, cv("!Invalid Service"));
}

#[test]
fn non_request_text_is_invalid() {
    let mut cm = ConnectionMap::new();
    let ch = hello_client(&mut cm, 1, "dev42");
    let step = ch.handle(&mut cm, text("hello there")).expect("diagnostic");
    assert_eq!(step.sends.len(), 1);
    assert_eq!(step.sends[0].frame, cv("!Invalid Request"));
}

#[test]
fn broadcast_fan_out_keeps_order() {
    let mut cm = ConnectionMap::new();
    assert!(hello_service(&mut cm, 10, "+ticker::broadcast").is_none());
    let a = hello_client(&mut cm, 1, "a");
    let b = hello_client(&mut cm, 2, "b");
    assert_eq!(a.id, 1);
    assert_eq!(b.id, 1);

    let sub_a = a.handle(&mut cm, text("&ticker::subscribe")).expect("subscribe");
    let pump_a = sub_a.subscribe.expect("binding for a");
    let sub_b = b.handle(&mut cm, text("&ticker::subscribe")).expect("subscribe");
    let pump_b = sub_b.subscribe.expect("binding for b");

    // each publication produces exactly one delivery per subscriber
    for (pump, conn) in [(&pump_a, 1u64), (&pump_b, 2u64)] {
        let first = pump.handle(&mut cm, text("tick-1")).expect("deliver");
        assert_eq!(first.len(), 1);
        assert_eq!(first[0].connection, conn);
        assert_eq!(first[0].frame, cv("ticker::tick-1"));
        let second = pump.handle(&mut cm, text("tick-2")).expect("deliver");
        assert_eq!(second.len(), 1);
        assert_eq!(second[0].connection, conn);
        assert_eq!(second[0].frame, cv("ticker::tick-2"));
    }
}

#[test]
fn duplicate_service_name_is_rejected() {
    let mut cm = ConnectionMap::new();
    let _first = hello_service(&mut cm, 10, "+sysinfo::request");
    let step = accept_hello(&mut cm, 11, text("+sysinfo::request"));
    assert!(matches!(step.outcome, AcceptOutcome::Rejected));
    assert_eq!(step.sends.len(), 1);
    assert_eq!(step.sends[0].connection, 11);
    assert_eq!(step.sends[0].frame, cv("!Service already registered"));

    // the first registration still routes requests
    let ch = hello_client(&mut cm, 1, "dev42");
    let fwd = ch.handle(&mut cm, text("&sysinfo::uptime")).expect("dispatch");
    assert_eq!(fwd.sends[0].connection, 10);
}

#[test]
fn client_disconnect_mid_request() {
    let mut cm = ConnectionMap::new();
    let rh = hello_service(&mut cm, 10, "+svc::request").expect("request handler");
    let ch = hello_client(&mut cm, 1, "S");

    let step = ch.handle(&mut cm, text("&svc::work")).expect("dispatch");
    assert_eq!(step.sends[0].frame, cv("S@1::work"));

    // the client closes: it leaves the registry and the handler ends
    let closed = ch.handle(&mut cm, Message::Close);
    assert_eq!(closed.unwrap_err(), BrokerError::ConnectionClosed);
    assert!(cm.client_map.get(&cv("S"), 1).is_none());

    // the late reply cannot be delivered; the service is told so
    let sends = rh.handle(&mut cm, text("S@1&work::done")).expect("step");
    assert_eq!(sends.len(), 1);
    assert_eq!(sends[0].connection, 10);
    assert_eq!(sends[0].frame, cv("!Invalid Destination"));
}

#[test]
fn service_close_deregisters() {
    let mut cm = ConnectionMap::new();
    let rh = hello_service(&mut cm, 10, "+svc::request").expect("request handler");
    let r = rh.handle(&mut cm, Message::Close);
    assert_eq!(r.unwrap_err(), BrokerError::ConnectionClosed);
    assert!(cm.service_map.get(&cv("svc")).is_err());
}

#[test]
fn malformed_reply_address_is_diagnosed() {
    let mut cm = ConnectionMap::new();
    let rh = hello_service(&mut cm, 10, "+svc::request").expect("request handler");
    for bad in ["rubbish::data", "S@x&r::d", "S@1::d"] {
        let sends = rh.handle(&mut cm, text(bad)).expect("step");
        assert_eq!(sends.len(), 1, "for {bad}");
        assert_eq!(sends[0].connection, 10);
        assert_eq!(sends[0].frame, cv("!Invalid Destination"));
    }
    // a well-addressed frame without a payload is silently dropped
    let sends = rh.handle(&mut cm, text("S@1&r")).expect("step");
    assert_eq!(sends.len(), 0);
}

#[test]
fn bad_service_hello_is_diagnosed() {
    let mut cm = ConnectionMap::new();
    let step = accept_hello(&mut cm, 5, text("+name::banana"));
    assert!(matches!(step.outcome, AcceptOutcome::Rejected));
    assert_eq!(step.sends[0].frame, cv("Invalid ServiceType"));

    let step = accept_hello(&mut cm, 5, text("+name"));
    assert!(matches!(step.outcome, AcceptOutcome::Rejected));
    assert_eq!(step.sends[0].frame, cv("ServiceType Unspecified"));

    // a non-text frame leaves the hello loop pending
    let step = accept_hello(&mut cm, 5, Message::Other);
    assert!(matches!(step.outcome, AcceptOutcome::Pending));
    assert_eq!(step.sends.len(), 0);
}

#[test]
fn empty_hello_registers_empty_serial() {
    let mut cm = ConnectionMap::new();
    let ch = hello_client(&mut cm, 1, "");
    assert_eq!(ch.id, 1);
    assert!(cm.client_map.get(&cv(""), 1).is_some());
}

#[test]
fn request_without_payload_does_nothing() {
    let mut cm = ConnectionMap::new();
    let _rh = hello_service(&mut cm, 10, "+svc::request");
    let ch = hello_client(&mut cm, 1, "dev");
    let step = ch.handle(&mut cm, text("&svc")).expect("dispatch");
    assert_eq!(step.sends.len(), 0);
    assert!(step.subscribe.is_none());
}

#[test]
fn subscribe_needs_no_payload() {
    let mut cm = ConnectionMap::new();
    assert!(hello_service(&mut cm, 10, "+ticker::broadcast").is_none());
    let ch = hello_client(&mut cm, 1, "dev");
    let step = ch.handle(&mut cm, text("&ticker")).expect("dispatch");
    assert_eq!(step.sends.len(), 0);
    assert!(step.subscribe.is_some());
}

#[test]
fn empty_service_selector_is_unknown() {
    let mut cm = ConnectionMap::new();
    let ch = hello_client(&mut cm, 1, "dev");
    let step = ch.handle(&mut cm, text("&::data")).expect("dispatch");
    assert_eq!(step.sends[0].frame, cv("!Invalid Service"));
}

#[test]
fn hello_type_token_is_the_second_segment() {
    let mut cm = ConnectionMap::new();
    // anything past the second separator is ignored by the hello
    let rh = hello_service(&mut cm, 10, "+svc::request::extra");
    assert!(rh.is_some());
    let ch = hello_client(&mut cm, 1, "dev");
    let step = ch.handle(&mut cm, text("&svc::go")).expect("dispatch");
    assert_eq!(step.sends[0].connection, 10);
}

#[test]
fn binary_frames_are_fatal_to_their_handler() {
    let mut cm = ConnectionMap::new();
    let rh = hello_service(&mut cm, 10, "+svc::request").expect("request handler");
    let ch = hello_client(&mut cm, 1, "dev");
    assert_eq!(
        ch.handle(&mut cm, Message::Binary(vec![1, 2])).unwrap_err(),
        BrokerError::BinaryUnsupported
    );
    assert_eq!(
        rh.handle(&mut cm, Message::Binary(vec![1, 2])).unwrap_err(),
        BrokerError::BinaryUnsupported
    );
    // a binary frame does not deregister anyone
    assert!(cm.service_map.get(&cv("svc")).is_ok());
    assert!(cm.client_map.get(&cv("dev"), 1).is_some());
}

#[test]
fn close_of_unregistered_client_is_reported() {
    let mut cm = ConnectionMap::new();
    let ch = hello_client(&mut cm, 1, "dev");
    assert_eq!(
        ch.handle(&mut cm, Message::Close).unwrap_err(),
        BrokerError::ConnectionClosed
    );
    // a second close finds no registration
    assert_eq!(
        ch.handle(&mut cm, Message::Close).unwrap_err(),
        BrokerError::CloseNotRegistered
    );
}
