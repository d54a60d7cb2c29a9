use virtioz_core::signaling::{
    hosts_for, peer_signal, PeerSignal, SignalingAction, SignalingMessage, SignalingSession,
};
use virtioz_core::strmap::StrMap;

fn s(x: &str) -> Option<String> {
    Some(x.to_string())
}

fn register(peer: &str, cluster: &str) -> SignalingMessage {
    SignalingMessage { msg_type: s("register"), peer_id: s(peer), cluster_key: s(cluster), target_peer_id: None }
}

fn discover() -> SignalingMessage {
    SignalingMessage { msg_type: s("discover_hosts"), peer_id: None, cluster_key: None, target_peer_id: None }
}

fn relay(kind: &str, target: &str) -> SignalingMessage {
    SignalingMessage { msg_type: s(kind), peer_id: None, cluster_key: None, target_peer_id: s(target) }
}

fn listed(action: &SignalingAction) -> Vec<String> {
    match action {
        SignalingAction::HostList { hosts, .. } => {
            let mut h = hosts.clone();
            h.sort();
            h
        }
        _ => panic!("expected a host list"),
    }
}

#[test]
fn registration_records_peer_and_cluster() {
    let mut reg = StrMap::new();
    let mut session = SignalingSession::new();
    let action = session.handle(&mut reg, &register("agent_1", "blue"));
    assert!(matches!(action, SignalingAction::Registered { ref peer_id } if peer_id == "agent_1"));
    assert_eq!(session.registered_peer_id(), s("agent_1"));
    assert_eq!(reg.get(&"agent_1".to_string()), s("blue"));
}

#[test]
fn registration_without_cluster_is_ignored() {
    let mut reg = StrMap::new();
    let mut session = SignalingSession::new();
    let msg = SignalingMessage { msg_type: s("register"), peer_id: s("agent_1"), cluster_key: None, target_peer_id: None };
    assert!(matches!(session.handle(&mut reg, &msg), SignalingAction::Ignore));
    assert_eq!(session.registered_peer_id(), None);
    assert!(!reg.contains_key(&"agent_1".to_string()));
}

#[test]
fn discovery_lists_other_hosts_of_the_cluster_only() {
    let mut reg = StrMap::new();
    let mut router = SignalingSession::new();
    let mut a1 = SignalingSession::new();
    let mut a2 = SignalingSession::new();
    let mut a3 = SignalingSession::new();
    let mut other_router = SignalingSession::new();
    router.handle(&mut reg, &register("core_aaaa1111", "blue"));
    a1.handle(&mut reg, &register("agent_1", "blue"));
    a2.handle(&mut reg, &register("agent_2", "blue"));
    a3.handle(&mut reg, &register("agent_3", "red"));
    other_router.handle(&mut reg, &register("core_bbbb2222", "blue"));
    let action = router.handle(&mut reg, &discover());
    assert_eq!(listed(&action), vec!["agent_1".to_string(), "agent_2".to_string()]);
    let from_agent = a1.handle(&mut reg, &discover());
    assert_eq!(listed(&from_agent), vec!["agent_2".to_string()]);
}

#[test]
fn discovery_reply_text_lists_hosts_in_registration_order() {
    let mut reg = StrMap::new();
    let mut router = SignalingSession::new();
    SignalingSession::new().handle(&mut reg, &register("agent_2", "default"));
    SignalingSession::new().handle(&mut reg, &register("agent_1", "default"));
    router.handle(&mut reg, &register("core_12345678", "default"));
    match router.handle(&mut reg, &discover()) {
        SignalingAction::HostList { hosts, reply } => {
            assert_eq!(hosts, vec!["agent_2".to_string(), "agent_1".to_string()]);
            assert_eq!(
                reply,
                r#"{"hosts":[{"peer_id":"agent_2"},{"peer_id":"agent_1"}],"type":"host_list"}"#
            );
        }
        _ => panic!("expected a host list"),
    }
}

#[test]
fn discovery_before_registration_is_ignored() {
    let mut reg = StrMap::new();
    let mut session = SignalingSession::new();
    assert!(matches!(session.handle(&mut reg, &discover()), SignalingAction::Ignore));
}

#[test]
fn discovery_after_peer_was_removed_is_ignored() {
    let mut reg = StrMap::new();
    let mut a = SignalingSession::new();
    let mut b = SignalingSession::new();
    a.handle(&mut reg, &register("agent_1", "blue"));
    b.handle(&mut reg, &register("agent_1", "blue"));
    b.close(&mut reg);
    assert!(matches!(a.handle(&mut reg, &discover()), SignalingAction::Ignore));
}

#[test]
fn relay_goes_only_to_registered_targets() {
    let mut reg = StrMap::new();
    let mut router = SignalingSession::new();
    let mut agent = SignalingSession::new();
    router.handle(&mut reg, &register("core_1", "blue"));
    agent.handle(&mut reg, &register("agent_1", "blue"));
    for kind in ["offer", "answer", "ice-candidate"] {
        let action = router.handle(&mut reg, &relay(kind, "agent_1"));
        assert!(matches!(action, SignalingAction::Relay { ref target_peer_id } if target_peer_id == "agent_1"));
    }
    assert!(matches!(router.handle(&mut reg, &relay("offer", "agent_9")), SignalingAction::Ignore));
    let no_target = SignalingMessage { msg_type: s("offer"), peer_id: None, cluster_key: None, target_peer_id: None };
    assert!(matches!(router.handle(&mut reg, &no_target), SignalingAction::Ignore));
}

#[test]
fn unknown_and_missing_types_are_ignored() {
    let mut reg = StrMap::new();
    let mut session = SignalingSession::new();
    assert!(matches!(session.handle(&mut reg, &relay("hello", "x")), SignalingAction::Ignore));
    let untyped = SignalingMessage { msg_type: None, peer_id: s("p"), cluster_key: s("c"), target_peer_id: None };
    assert!(matches!(session.handle(&mut reg, &untyped), SignalingAction::Ignore));
    assert!(!reg.contains_key(&"p".to_string()));
}

#[test]
fn closing_removes_the_registered_peer() {
    let mut reg = StrMap::new();
    let mut session = SignalingSession::new();
    session.handle(&mut reg, &register("agent_1", "blue"));
    assert_eq!(session.close(&mut reg), s("agent_1"));
    assert!(!reg.contains_key(&"agent_1".to_string()));
    assert_eq!(SignalingSession::new().close(&mut reg), None);
}

#[test]
fn re_registration_moves_cluster_and_keeps_old_id() {
    let mut reg = StrMap::new();
    let mut session = SignalingSession::new();
    session.handle(&mut reg, &register("agent_1", "blue"));
    session.handle(&mut reg, &register("agent_2", "red"));
    session.handle(&mut reg, &register("agent_2", "green"));
    assert_eq!(session.registered_peer_id(), s("agent_2"));
    assert_eq!(reg.get(&"agent_1".to_string()), s("blue"));
    assert_eq!(reg.get(&"agent_2".to_string()), s("green"));
}

#[test]
fn hosts_for_a_cluster() {
    let mut reg = StrMap::new();
    reg.insert("core_x".to_string(), "c".to_string());
    reg.insert("h1".to_string(), "c".to_string());
    reg.insert("h2".to_string(), "d".to_string());
    reg.insert("me".to_string(), "c".to_string());
    assert_eq!(hosts_for(&reg, &"me".to_string(), &"c".to_string()), vec!["h1".to_string()]);
}

#[test]
fn peer_signal_kinds() {
    assert!(matches!(peer_signal(&s("host_list")), PeerSignal::HostList));
    assert!(matches!(peer_signal(&s("offer")), PeerSignal::Offer));
    assert!(matches!(peer_signal(&s("answer")), PeerSignal::Answer));
    assert!(matches!(peer_signal(&s("ice-candidate")), PeerSignal::IceCandidate));
    assert!(matches!(peer_signal(&s("other")), PeerSignal::Other));
    assert!(matches!(peer_signal(&None), PeerSignal::Other));
}

#[test]
fn closed_peer_is_no_longer_offered() {
    let mut reg = StrMap::new();
    let mut router = SignalingSession::new();
    let mut agent = SignalingSession::new();
    router.handle(&mut reg, &register("core_1", "blue"));
    agent.handle(&mut reg, &register("agent_1", "blue"));
    assert_eq!(listed(&router.handle(&mut reg, &discover())), vec!["agent_1".to_string()]);
    agent.close(&mut reg);
    assert_eq!(listed(&router.handle(&mut reg, &discover())), Vec::<String>::new());
}

#[test]
fn fresh_router_ids_are_never_offered() {
    let mut reg = StrMap::new();
    let mut agent = SignalingSession::new();
    let router_id = virtioz_core::ids::new_router_peer_id();
    SignalingSession::new().handle(&mut reg, &register(&router_id, "blue"));
    agent.handle(&mut reg, &register("agent_1", "blue"));
    assert_eq!(listed(&agent.handle(&mut reg, &discover())), Vec::<String>::new());
}
