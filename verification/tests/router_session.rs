use virtioz_core::ids::new_router_peer_id;
use virtioz_core::mesh::{RouterReaction, RouterSession, DISCOVERY_INTERVAL_SECS};
use virtioz_core::signaling::IceCandidateFields;

fn session() -> RouterSession {
    RouterSession::new("core_1234abcd".to_string())
}

fn connected(r: RouterReaction) -> Vec<String> {
    match r {
        RouterReaction::Connect { hosts } => hosts,
        _ => panic!("expected new connections"),
    }
}

fn ignored(r: &RouterReaction) -> bool {
    matches!(r, RouterReaction::Ignore)
}

#[test]
fn session_registers_and_discovers_under_one_id() {
    let s = session();
    assert_eq!(s.peer_id_text(), "core_1234abcd");
    assert_eq!(
        s.register_message("default"),
        r#"{"cluster_key":"default","peer_id":"core_1234abcd","type":"register"}"#
    );
    assert_eq!(s.discover_message(), r#"{"peer_id":"core_1234abcd","type":"discover_hosts"}"#);
    assert_eq!(DISCOVERY_INTERVAL_SECS, 10);
}

#[test]
fn a_fresh_router_session_has_a_router_id() {
    let s = RouterSession::new(new_router_peer_id());
    let id = s.peer_id_text();
    assert!(id.starts_with("core_"));
    assert_eq!(id.len(), 13);
    assert!(s.discover_message().contains(&id));
}

#[test]
fn host_lists_bring_each_host_once() {
    let mut s = session();
    let first = s.on_signal(r#"{"type":"host_list","hosts":[{"peer_id":"a"},{"peer_id":"b"},{"peer_id":"a"}]}"#);
    assert_eq!(connected(first), vec!["a", "b"]);
    let second = s.on_signal(r#"{"type":"host_list","hosts":[{"peer_id":"b"},{"peer_id":""},{},{"peer_id":"c"}]}"#);
    assert_eq!(connected(second), vec!["c"]);
    let third = s.on_signal(r#"{"type":"host_list","hosts":[]}"#);
    assert!(connected(third).is_empty());
    assert!(ignored(&s.on_signal(r#"{"type":"host_list"}"#)));
    assert!(ignored(&s.on_signal(r#"{"type":"host_list","hosts":{"peer_id":"d"}}"#)));
    let fourth = s.on_signal(r#"{"type":"host_list","hosts":[{"peer_id":"d"},{"peer_id":"a"}]}"#);
    assert_eq!(connected(fourth), vec!["d"]);
}

#[test]
fn offers_and_candidates_go_only_to_known_hosts() {
    let mut s = session();
    let a = "agent_a".to_string();
    assert_eq!(s.offer_message(&a, "v=0"), None);
    let fields = IceCandidateFields {
        candidate: "candidate:1".to_string(),
        sdp_mid: Some("0".to_string()),
        sdp_mline_index: Some(0),
    };
    assert_eq!(s.candidate_message(&a, &fields, &None), None);
    connected(s.on_signal(r#"{"type":"host_list","hosts":[{"peer_id":"agent_a"}]}"#));
    assert_eq!(
        s.offer_message(&a, "v=0"),
        Some(r#"{"sdp":{"sdp":"v=0","type":"offer"},"source_peer_id":"core_1234abcd","target_peer_id":"agent_a","type":"offer"}"#.to_string())
    );
    assert_eq!(
        s.candidate_message(&a, &fields, &Some("uf".to_string())),
        Some(r#"{"candidate":{"candidate":"candidate:1","sdpMLineIndex":0,"sdpMid":"0","usernameFragment":"uf"},"source_peer_id":"core_1234abcd","target_peer_id":"agent_a","type":"ice-candidate"}"#.to_string())
    );
    assert_eq!(s.offer_message(&"agent_b".to_string(), "v=0"), None);
}

#[test]
fn answers_are_taken_only_from_known_hosts() {
    let mut s = session();
    let answer = r#"{"type":"answer","source_peer_id":"agent_a","target_peer_id":"core_1234abcd","sdp":{"type":"answer","sdp":"v=0"}}"#;
    assert!(ignored(&s.on_signal(answer)));
    connected(s.on_signal(r#"{"type":"host_list","hosts":[{"peer_id":"agent_a"}]}"#));
    match s.on_signal(answer) {
        RouterReaction::Answer(a) => {
            assert_eq!(a.source_peer_id, "agent_a");
            assert_eq!(a.sdp, "v=0");
        }
        _ => panic!("expected an answer"),
    }
    assert!(ignored(&s.on_signal(r#"{"type":"answer","source_peer_id":"agent_a","sdp":{"type":"answer"}}"#)));
    assert!(ignored(&s.on_signal(r#"{"type":"answer","sdp":{"sdp":"v=0"}}"#)));
}

#[test]
fn candidates_are_taken_only_from_known_hosts() {
    let mut s = session();
    let candidate = r#"{"type":"ice-candidate","source_peer_id":"agent_a","candidate":{"candidate":"candidate:2","sdpMid":"1","sdpMLineIndex":3}}"#;
    assert!(ignored(&s.on_signal(candidate)));
    connected(s.on_signal(r#"{"type":"host_list","hosts":[{"peer_id":"agent_a"}]}"#));
    match s.on_signal(candidate) {
        RouterReaction::Candidate(m) => {
            assert_eq!(m.source_peer_id, "agent_a");
            assert_eq!(m.candidate.candidate, "candidate:2");
            assert_eq!(m.candidate.sdp_mid, Some("1".to_string()));
            assert_eq!(m.candidate.sdp_mline_index, Some(3));
        }
        _ => panic!("expected a candidate"),
    }
    assert!(ignored(&s.on_signal(r#"{"type":"ice-candidate","source_peer_id":"agent_a","candidate":{"sdpMid":"1"}}"#)));
    assert!(ignored(&s.on_signal(r#"{"type":"ice-candidate","source_peer_id":"agent_a","candidate":"c"}"#)));
}

#[test]
fn other_signals_are_ignored() {
    let mut s = session();
    connected(s.on_signal(r#"{"type":"host_list","hosts":[{"peer_id":"agent_a"}]}"#));
    assert!(ignored(&s.on_signal(r#"{"type":"offer","source_peer_id":"agent_a","sdp":{"sdp":"v=0"}}"#)));
    assert!(ignored(&s.on_signal(r#"{"type":"registered"}"#)));
    assert!(ignored(&s.on_signal("not json")));
    assert!(ignored(&s.on_signal("[]")));
}
