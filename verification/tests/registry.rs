use zeitop::client::ClientMap;
use zeitop::client::Client;
use zeitop::service::{Service, ServiceMap, ServiceType};
use zeitop::BrokerError;

fn cv(s: &str) -> Vec<char> {
    s.chars().collect()
}

fn client(serial: &str, connection: u64) -> Client {
    Client { serial: cv(serial), connection }
}

#[test]
fn first_client_gets_id_one() {
    let mut m = ClientMap::new();
    let id = m.insert(&cv("dev42"), client("dev42", 1));
    assert_eq!(id, 1);
}

#[test]
fn ids_grow_per_serial() {
    let mut m = ClientMap::new();
    assert_eq!(m.insert(&cv("a"), client("a", 1)), 1);
    assert_eq!(m.insert(&cv("a"), client("a", 2)), 2);
    assert_eq!(m.insert(&cv("b"), client("b", 3)), 1);
    assert_eq!(m.insert(&cv("a"), client("a", 4)), 3);
}

#[test]
fn id_exceeds_survivors_after_removal() {
    let mut m = ClientMap::new();
    assert_eq!(m.insert(&cv("a"), client("a", 1)), 1);
    assert_eq!(m.insert(&cv("a"), client("a", 2)), 2);
    assert!(m.remove(&cv("a"), 1).is_ok());
    // id 2 is still present, so the fresh id must exceed it
    assert_eq!(m.insert(&cv("a"), client("a", 3)), 3);
}

#[test]
fn reaped_serial_restarts_at_one() {
    let mut m = ClientMap::new();
    assert_eq!(m.insert(&cv("a"), client("a", 1)), 1);
    assert_eq!(m.insert(&cv("a"), client("a", 2)), 2);
    assert!(m.remove(&cv("a"), 1).is_ok());
    // a present serial always has at least one client
    assert!(m.get(&cv("a"), 2).is_some());
    assert!(m.remove(&cv("a"), 2).is_ok());
    // the serial entry was reaped with its last client
    assert!(m.get(&cv("a"), 2).is_none());
    assert_eq!(m.remove(&cv("a"), 2), Err(zeitop::BrokerError::InvalidClientSerial));
    assert_eq!(m.insert(&cv("a"), client("a", 3)), 1);
}

#[test]
fn get_finds_registered_client() {
    let mut m = ClientMap::new();
    let id = m.insert(&cv("a"), client("a", 7));
    let found = m.get(&cv("a"), id).expect("registered");
    assert_eq!(found.serial, cv("a"));
    assert_eq!(found.connection, 7);
    assert!(m.get(&cv("a"), id + 1).is_none());
    assert!(m.get(&cv("b"), 1).is_none());
}

#[test]
fn remove_unknown_serial_fails() {
    let mut m = ClientMap::new();
    assert_eq!(m.remove(&cv("a"), 1), Err(BrokerError::InvalidClientSerial));
}

#[test]
fn remove_unknown_id_is_silent() {
    let mut m = ClientMap::new();
    let id = m.insert(&cv("a"), client("a", 1));
    assert!(m.remove(&cv("a"), id + 5).is_ok());
    assert!(m.get(&cv("a"), id).is_some());
}

fn service(name: &str, service_type: ServiceType, connection: u64) -> Service {
    Service { name: cv(name), service_type, connection }
}

#[test]
fn service_registers_once() {
    let mut m = ServiceMap::new();
    assert!(m.insert(&cv("sysinfo"), service("sysinfo", ServiceType::Request, 1)).is_ok());
    let got = m.get(&cv("sysinfo")).expect("registered");
    assert_eq!(got.connection, 1);
    assert!(matches!(got.service_type, ServiceType::Request));
}

#[test]
fn duplicate_registration_leaves_first_intact() {
    let mut m = ServiceMap::new();
    assert!(m.insert(&cv("sysinfo"), service("sysinfo", ServiceType::Request, 1)).is_ok());
    let second = m.insert(&cv("sysinfo"), service("sysinfo", ServiceType::Broadcast, 2));
    assert_eq!(second, Err(BrokerError::ServiceAlreadyRegistered));
    // the exact user-visible words of the rejection
    let msg: String = BrokerError::ServiceAlreadyRegistered.message().into_iter().collect();
    assert_eq!(msg, "Service already registered");
    let got = m.get(&cv("sysinfo")).expect("still registered");
    assert_eq!(got.connection, 1);
    assert!(matches!(got.service_type, ServiceType::Request));
}

#[test]
fn unknown_service_lookup_fails() {
    let m = ServiceMap::new();
    assert!(matches!(m.get(&cv("nope")), Err(BrokerError::InvalidService)));
}

#[test]
fn service_remove_is_idempotent() {
    let mut m = ServiceMap::new();
    assert!(m.insert(&cv("x"), service("x", ServiceType::Request, 1)).is_ok());
    m.remove(&cv("x"));
    assert!(m.get(&cv("x")).is_err());
    m.remove(&cv("x"));
    assert!(m.get(&cv("x")).is_err());
}

#[test]
fn ids_available_reports_headroom() {
    let mut m = ClientMap::new();
    assert!(m.ids_available());
    m.insert(&cv("a"), client("a", 1));
    assert!(m.ids_available());
}
