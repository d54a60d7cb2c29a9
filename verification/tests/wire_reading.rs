use serde_json::Value;
use virtioz_core::agent::agent_task_of;
use virtioz_core::dispatch::{is_input_job, tag_host_message, Dispatcher, Route};
use virtioz_core::messages::{completion_text, result_error_text, status_text, stream_chunk_text, task_text, telemetry_text};
use virtioz_core::router::{host_entries_of, ipc_login, ui_request_of, IpcLogin, KnownHosts, UiRequest};
use virtioz_core::signaling::{
    answer_of, candidate_text, discover_hosts_text, host_list_text, ice_candidate_of,
    ice_candidate_text, offer_of, peer_signal_of, register_text, session_description_text,
    signaling_message_of, IceCandidateFields, PeerSignal,
};
use virtioz_core::wire::message_text_of;

fn obj(members: &[(&str, Value)]) -> Value {
    let mut m = serde_json::Map::new();
    for (k, v) in members {
        m.insert(k.to_string(), v.clone());
    }
    Value::Object(m)
}

fn st(s: &str) -> Value {
    Value::String(s.to_string())
}

#[test]
fn messages_match_serde_json_output() {
    let tricky = "q\"b\\c\u{1}\u{8}\u{c}\n\r\t\u{7f}é";
    assert_eq!(status_text(tricky), obj(&[("type", st("status")), ("message", st(tricky))]).to_string());
    assert_eq!(
        result_error_text(tricky, "t"),
        obj(&[("type", st("result")), ("error", st(tricky)), ("task_id", st("t"))]).to_string()
    );
    assert_eq!(
        telemetry_text(42),
        obj(&[("type", st("telemetry")), ("active_nodes", Value::from(42u64))]).to_string()
    );
    assert_eq!(
        stream_chunk_text("t", tricky),
        obj(&[("type", st("stream_chunk")), ("task_id", st("t")), ("data", st(&format!("{}\r\n", tricky)))]).to_string()
    );
    assert_eq!(
        completion_text("t", -3),
        obj(&[
            ("type", st("result")),
            ("task_id", st("t")),
            ("exit_code", Value::from(-3i64)),
            ("data", st("\r\n[Process completed]\r\n")),
        ])
        .to_string()
    );
    assert_eq!(
        register_text("p", "c"),
        obj(&[("type", st("register")), ("peer_id", st("p")), ("cluster_key", st("c"))]).to_string()
    );
    assert_eq!(
        discover_hosts_text("p"),
        obj(&[("type", st("discover_hosts")), ("peer_id", st("p"))]).to_string()
    );
    assert_eq!(
        host_list_text(&vec!["a\"".to_string(), "b".to_string()]),
        obj(&[
            ("type", st("host_list")),
            ("hosts", Value::Array(vec![obj(&[("peer_id", st("a\""))]), obj(&[("peer_id", st("b"))])])),
        ])
        .to_string()
    );
    assert_eq!(
        session_description_text("offer", "s", "t", "v=0\r\n"),
        obj(&[
            ("type", st("offer")),
            ("source_peer_id", st("s")),
            ("target_peer_id", st("t")),
            ("sdp", obj(&[("type", st("offer")), ("sdp", st("v=0\r\n"))])),
        ])
        .to_string()
    );
    let fields = IceCandidateFields { candidate: "candidate:1".to_string(), sdp_mid: Some(String::new()), sdp_mline_index: Some(0) };
    let cand = obj(&[
        ("candidate", st("candidate:1")),
        ("sdpMid", st("")),
        ("sdpMLineIndex", Value::from(0u64)),
        ("usernameFragment", Value::Null),
    ]);
    assert_eq!(candidate_text(&fields, &None), cand.to_string());
    assert_eq!(
        ice_candidate_text("s", "t", &candidate_text(&fields, &None)),
        obj(&[("type", st("ice-candidate")), ("source_peer_id", st("s")), ("target_peer_id", st("t")), ("candidate", cand)]).to_string()
    );
}

#[test]
fn task_message_parses_to_the_same_value() {
    let text = task_text("id", "a\"b\n");
    let parsed: Value = serde_json::from_str(&text).unwrap();
    assert_eq!(parsed, obj(&[("task_id", st("id")), ("type", st("terminal")), ("payload", st("a\"b\n"))]));
}

#[test]
fn control_characters_are_escaped_as_serde_json_does() {
    assert_eq!(status_text("\u{1}\u{1f}"), r#"{"message":"\u0001\u001f","type":"status"}"#);
    assert_eq!(status_text("\u{8}\u{c}"), r#"{"message":"\b\f","type":"status"}"#);
}

#[test]
fn reading_signaling_messages() {
    let m = signaling_message_of(r#"{"type":"register","peer_id":"p","cluster_key":"c","target_peer_id":7}"#);
    assert_eq!(m.msg_type, Some("register".to_string()));
    assert_eq!(m.peer_id, Some("p".to_string()));
    assert_eq!(m.cluster_key, Some("c".to_string()));
    assert_eq!(m.target_peer_id, None);
    let bad = signaling_message_of("not json");
    assert!(bad.msg_type.is_none() && bad.peer_id.is_none());
    assert!(matches!(peer_signal_of(r#"{"type":"host_list","hosts":[]}"#), PeerSignal::HostList));
    assert!(matches!(peer_signal_of("garbage"), PeerSignal::Other));
    assert!(matches!(peer_signal_of(r#"["answer"]"#), PeerSignal::Other));
}

#[test]
fn reading_answers_and_offers() {
    let a = answer_of(r#"{"type":"answer","source_peer_id":"agent_1","sdp":{"type":"answer","sdp":"v=0"}}"#).unwrap();
    assert_eq!(a.source_peer_id, "agent_1");
    assert_eq!(a.sdp, "v=0");
    assert!(answer_of(r#"{"source_peer_id":"agent_1"}"#).is_none());
    assert!(answer_of(r#"{"sdp":{"sdp":"v=0"}}"#).is_none());
    let o = offer_of(r#"{"source_peer_id":"core_1","sdp":{"sdp":"v=0"}}"#).unwrap();
    assert_eq!(o.source_peer_id, "core_1");
    assert_eq!(o.sdp, Some("v=0".to_string()));
    assert_eq!(offer_of(r#"{"source_peer_id":"core_1"}"#).unwrap().sdp, None);
    assert!(offer_of(r#"{"sdp":{"sdp":"v=0"}}"#).is_none());
}

#[test]
fn reading_candidates() {
    let m = ice_candidate_of(
        r#"{"source_peer_id":"s","candidate":{"candidate":"candidate:1","sdpMid":"0","sdpMLineIndex":65537}}"#,
    )
    .unwrap();
    assert_eq!(m.source_peer_id, "s");
    assert_eq!(m.candidate.candidate, "candidate:1");
    assert_eq!(m.candidate.sdp_mid, Some("0".to_string()));
    assert_eq!(m.candidate.sdp_mline_index, Some(1));
    let n = ice_candidate_of(r#"{"source_peer_id":"s","candidate":{"candidate":5,"sdpMid":null}}"#).unwrap();
    assert_eq!(n.candidate.candidate, "");
    assert_eq!(n.candidate.sdp_mid, None);
    assert_eq!(n.candidate.sdp_mline_index, None);
    assert!(ice_candidate_of(r#"{"source_peer_id":"s","candidate":{"sdpMid":"0"}}"#).is_none());
    assert!(ice_candidate_of(r#"{"source_peer_id":"s","candidate":"x"}"#).is_none());
    assert!(ice_candidate_of(r#"{"candidate":{"candidate":"c"}}"#).is_none());
}

#[test]
fn reading_the_dashboard_login() {
    match ipc_login(r#"{"type":"auth","token":"virtioz_local_ipc_admin"}"#) {
        IpcLogin::Accepted { reply } => assert_eq!(reply, r#"{"message":"IPC Authenticated","type":"status"}"#),
        _ => panic!("expected a login"),
    }
    match ipc_login(r#"{"type":"auth","token":"nope"}"#) {
        IpcLogin::Refused { reply } => assert_eq!(reply, r#"{"message":"IPC Auth Failed","type":"status"}"#),
        _ => panic!("expected a refusal"),
    }
    assert!(matches!(ipc_login("[1,2]"), IpcLogin::Refused { .. }));
    assert!(matches!(ipc_login("{oops"), IpcLogin::Unreadable));
}

#[test]
fn reading_dashboard_requests() {
    match ui_request_of(&r#"{"type":"task","payload":"dir"}"#.to_string()) {
        UiRequest::Task { task_id, job, .. } => {
            assert_eq!(job, format!(r#"{{"task_id":"{}","type":"terminal","payload":"dir"}}"#, task_id))
        }
        _ => panic!("expected a task"),
    }
    let text = r#"{"type":"stdin","task_id":"t1","data":"y"}"#.to_string();
    match ui_request_of(&text) {
        UiRequest::Stdin { task_id, job } => {
            assert_eq!(task_id, "t1");
            assert_eq!(job, text);
        }
        _ => panic!("expected stdin"),
    }
    assert!(matches!(ui_request_of(&"not json".to_string()), UiRequest::Ignore));
}

#[test]
fn reading_host_lists() {
    let e = host_entries_of(r#"{"type":"host_list","hosts":[{"peer_id":"a"},{"peer_id":3},{},{"peer_id":"b"}]}"#).unwrap();
    assert_eq!(e, vec![Some("a".to_string()), None, None, Some("b".to_string())]);
    assert!(host_entries_of(r#"{"type":"host_list"}"#).is_none());
    assert!(host_entries_of("x").is_none());
}

#[test]
fn each_listed_host_is_connected_once_over_many_lists() {
    let mut known = KnownHosts::new();
    let lists = [
        r#"{"hosts":[{"peer_id":"a"},{"peer_id":"b"},{"peer_id":"a"}]}"#,
        r#"{"hosts":[{"peer_id":"b"},{"peer_id":""},{"peer_id":"c"}]}"#,
        r#"{"hosts":[{"peer_id":"c"},{"peer_id":"a"},{"peer_id":"d"}]}"#,
    ];
    let mut connected = Vec::new();
    for l in lists {
        connected.extend(known.take_new_hosts(&host_entries_of(l).unwrap()));
    }
    assert_eq!(connected, vec!["a", "b", "c", "d"]);
}

#[test]
fn host_messages_are_tagged_with_their_sender() {
    let peer = "agent_1";
    assert_eq!(
        tag_host_message(peer, br#"{"type":"stream_chunk","task_id":"t1","data":"x"}"#),
        Some(r#"{"data":"x","source_peer":"agent_1","task_id":"t1","type":"stream_chunk"}"#.to_string())
    );
    assert_eq!(
        tag_host_message(peer, br#"{"source_peer":"forged","type":"result"}"#),
        Some(r#"{"source_peer":"agent_1","type":"result"}"#.to_string())
    );
    assert_eq!(tag_host_message(peer, b"not json"), None);
    assert_eq!(tag_host_message(peer, &[0xff, 0xfe]), None);
    assert_eq!(tag_host_message(peer, b"[1]"), Some("[1]".to_string()));
}

#[test]
fn host_data_frees_the_host_only_on_result() {
    let mut d = Dispatcher::new();
    let peer = "agent_1".to_string();
    match d.route(&"t1".to_string(), &r#"{"type":"terminal"}"#.to_string(), vec![peer.clone()], 0) {
        Route::Dispatched { .. } => {}
        _ => panic!("expected a dispatch"),
    }
    d.host_data(&peer, br#"{"type":"stream_chunk","task_id":"t1","data":"x"}"#);
    assert!(d.is_busy(&peer));
    d.host_data(&peer, b"not json");
    d.host_data(&peer, &[0xff, 0xfe]);
    d.host_data(&peer, b"[1]");
    d.host_data(&peer, br#"{"type":7,"task_id":"t1"}"#);
    assert!(d.is_busy(&peer));
    assert_eq!(d.host_of(&"t1".to_string()), Some(peer.clone()));
    d.host_data(&peer, br#"{"type":"result","task_id":"t1","exit_code":0}"#);
    assert!(!d.is_busy(&peer));
    assert_eq!(d.host_of(&"t1".to_string()), None);
}

#[test]
fn input_jobs_are_recognised_by_their_type() {
    assert!(is_input_job(r#"{"type":"stdin","task_id":"t1","data":"y"}"#));
    assert!(!is_input_job(r#"{"type":"terminal","task_id":"t1","payload":"ls"}"#));
    assert!(!is_input_job(r#"{"type": "stdin"}"#));
}

#[test]
fn agent_reads_tasks_from_bytes() {
    let t = agent_task_of(br#"{"type":"terminal","task_id":"t","payload":"dir"}"#).unwrap();
    assert_eq!(t.task_id, "t");
    assert_eq!(t.payload, "dir");
    assert!(agent_task_of(br#"{"type":"stdin"}"#).is_none());
    assert!(agent_task_of(&[0xc3]).is_none());
}

#[test]
fn bytes_decode_as_utf8() {
    assert_eq!(message_text_of("héllo".as_bytes()), "héllo");
    assert_eq!(message_text_of(&[0xc3, 0x28]), "");
}
