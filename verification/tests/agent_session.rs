use virtioz_core::agent::{AgentReaction, AgentSession};
use virtioz_core::ids::new_agent_peer_id;
use virtioz_core::signaling::IceCandidateFields;

fn agent() -> AgentSession {
    AgentSession::new("agent_0000beef".to_string())
}

fn agent_ignored(r: &AgentReaction) -> bool {
    matches!(r, AgentReaction::Ignore)
}

const OFFER: &str = r#"{"type":"offer","source_peer_id":"core_1","target_peer_id":"agent_0000beef","sdp":{"type":"offer","sdp":"v=0"}}"#;
const CANDIDATE: &str = r#"{"type":"ice-candidate","source_peer_id":"core_1","candidate":{"candidate":"candidate:9","sdpMid":"0","sdpMLineIndex":1}}"#;

#[test]
fn agent_registers_under_its_id() {
    let a = agent();
    assert_eq!(a.peer_id_text(), "agent_0000beef");
    assert_eq!(
        a.register_message("lab"),
        r#"{"cluster_key":"lab","peer_id":"agent_0000beef","type":"register"}"#
    );
    let fresh = AgentSession::new(new_agent_peer_id());
    assert!(fresh.peer_id_text().starts_with("agent_"));
    assert_eq!(fresh.peer_id_text().len(), 14);
}

#[test]
fn offers_are_accepted_and_answered() {
    let mut a = agent();
    let core = "core_1".to_string();
    assert_eq!(a.answer_message(&core, "v=1"), None);
    match a.on_signal(OFFER) {
        AgentReaction::Offer(f) => {
            assert_eq!(f.source_peer_id, "core_1");
            assert_eq!(f.sdp, Some("v=0".to_string()));
        }
        _ => panic!("expected an offer"),
    }
    assert_eq!(
        a.answer_message(&core, "v=1"),
        Some(r#"{"sdp":{"sdp":"v=1","type":"answer"},"source_peer_id":"agent_0000beef","target_peer_id":"core_1","type":"answer"}"#.to_string())
    );
    assert_eq!(a.answer_message(&"core_2".to_string(), "v=1"), None);
    match a.on_signal(r#"{"type":"offer","source_peer_id":"core_2"}"#) {
        AgentReaction::Offer(f) => assert_eq!(f.sdp, None),
        _ => panic!("expected an offer"),
    }
    assert!(a.answer_message(&"core_2".to_string(), "v=1").is_some());
    assert!(agent_ignored(&a.on_signal(r#"{"type":"offer","sdp":{"sdp":"v=0"}}"#)));
}

#[test]
fn candidates_come_only_from_routers_that_offered() {
    let mut a = agent();
    assert!(agent_ignored(&a.on_signal(CANDIDATE)));
    let fields = IceCandidateFields { candidate: "candidate:3".to_string(), sdp_mid: None, sdp_mline_index: None };
    assert_eq!(a.candidate_message(&"core_1".to_string(), &fields, &None), None);
    a.on_signal(OFFER);
    match a.on_signal(CANDIDATE) {
        AgentReaction::Candidate(m) => {
            assert_eq!(m.source_peer_id, "core_1");
            assert_eq!(m.candidate.candidate, "candidate:9");
            assert_eq!(m.candidate.sdp_mid, Some("0".to_string()));
            assert_eq!(m.candidate.sdp_mline_index, Some(1));
        }
        _ => panic!("expected a candidate"),
    }
    assert_eq!(
        a.candidate_message(&"core_1".to_string(), &fields, &None),
        Some(r#"{"candidate":{"candidate":"candidate:3","sdpMLineIndex":null,"sdpMid":null,"usernameFragment":null},"source_peer_id":"agent_0000beef","target_peer_id":"core_1","type":"ice-candidate"}"#.to_string())
    );
}

#[test]
fn agent_ignores_other_signals() {
    let mut a = agent();
    assert!(agent_ignored(&a.on_signal(r#"{"type":"host_list","hosts":[{"peer_id":"x"}]}"#)));
    assert!(agent_ignored(&a.on_signal(r#"{"type":"answer","source_peer_id":"core_1","sdp":{"sdp":"v=0"}}"#)));
    assert!(agent_ignored(&a.on_signal("{")));
    assert_eq!(a.answer_message(&"core_1".to_string(), "v=0"), None);
}
