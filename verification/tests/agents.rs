use peekr::agents::{admit_agent, AgentRegistry, Delivery, PendingTable};
use peekr::api::Status;

#[test]
fn requests_get_increasing_ids() {
    let mut t: PendingTable<&str> = PendingTable::new();
    assert_eq!(t.open("a"), 0);
    assert_eq!(t.open("b"), 1);
    assert_eq!(t.open("c"), 2);
    assert_eq!(t.sender(0), Some(&"a"));
    assert_eq!(t.sender(2), Some(&"c"));
    assert_eq!(t.sender(3), None);
}

#[test]
fn frames_are_routed_until_the_request_ends() {
    let mut t: PendingTable<u32> = PendingTable::new();
    let id = t.open(10);
    assert_eq!(t.delivery(id, false), Delivery::Deliver);
    assert_eq!(t.delivery(id, true), Delivery::DeliverAndClose);
    assert_eq!(t.close(id), Some(10));
    assert_eq!(t.delivery(id, false), Delivery::Drop);
    assert_eq!(t.delivery(id, true), Delivery::Drop);
    assert_eq!(t.close(id), None);
}

#[test]
fn closing_one_request_keeps_the_others() {
    let mut t: PendingTable<u32> = PendingTable::new();
    let a = t.open(1);
    let b = t.open(2);
    assert_eq!(t.close(a), Some(1));
    assert_eq!(t.sender(b), Some(&2));
    let c = t.open(3);
    assert_ne!(c, a);
    assert_ne!(c, b);
}

#[test]
fn registry_tracks_connected_agents() {
    let mut r: AgentRegistry<u32> = AgentRegistry::new();
    assert!(r.online_ids().is_empty());
    r.connect("h1".to_string(), 1);
    r.connect("h2".to_string(), 2);
    assert_eq!(r.get("h1"), Some(&1));
    assert_eq!(r.get("h3"), None);
    // a reconnect replaces the earlier connection
    r.connect("h1".to_string(), 3);
    assert_eq!(r.get("h1"), Some(&3));
    let mut ids = r.online_ids();
    ids.sort();
    assert_eq!(ids, vec!["h1".to_string(), "h2".to_string()]);
    assert_eq!(r.disconnect("h1"), Some(3));
    assert_eq!(r.get("h1"), None);
    assert_eq!(r.disconnect("h1"), None);
    assert_eq!(r.online_ids(), vec!["h2".to_string()]);
}

#[test]
fn agents_need_a_known_token() {
    assert_eq!(admit_agent(Some("abc123".to_string())).unwrap(), "abc123");
    let e = admit_agent(None).unwrap_err();
    assert_eq!(e.status, Status::Unauthorized);
    assert_eq!(e.status.code(), 401);
}
