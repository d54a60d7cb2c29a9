use virtioz_core::json::{array_text, decimal_text, object_text, signed_decimal_text};
use virtioz_core::messages::{
    completion_text, result_error_text, status_text, stream_chunk_text, task_text, telemetry_text,
};
use virtioz_core::signaling::{
    discover_hosts_text, host_list_text, ice_candidate_text, register_text,
    session_description_text,
};

#[test]
fn status_message_is_compact_with_sorted_keys() {
    assert_eq!(status_text("hello"), r#"{"message":"hello","type":"status"}"#);
}

#[test]
fn status_message_escapes_quotes_and_backslashes() {
    assert_eq!(
        status_text("say \"hi\" \\ bye"),
        r#"{"message":"say \"hi\" \\ bye","type":"status"}"#
    );
}

#[test]
fn status_message_escapes_control_characters() {
    assert_eq!(status_text("a\nb\tc"), r#"{"message":"a\nb\tc","type":"status"}"#);
}

#[test]
fn status_message_keeps_non_ascii() {
    assert_eq!(status_text("héllo ✓"), "{\"message\":\"héllo ✓\",\"type\":\"status\"}");
}

#[test]
fn result_error_message() {
    assert_eq!(
        result_error_text("No active nodes in swarm", "t1"),
        r#"{"error":"No active nodes in swarm","task_id":"t1","type":"result"}"#
    );
}

#[test]
fn telemetry_message() {
    assert_eq!(telemetry_text(3), r#"{"active_nodes":3,"type":"telemetry"}"#);
    assert_eq!(telemetry_text(0), r#"{"active_nodes":0,"type":"telemetry"}"#);
    assert_eq!(telemetry_text(1234567), r#"{"active_nodes":1234567,"type":"telemetry"}"#);
}

#[test]
fn task_message_keeps_field_order() {
    assert_eq!(
        task_text("abc", "echo 'Hello GitHub'"),
        r#"{"task_id":"abc","type":"terminal","payload":"echo 'Hello GitHub'"}"#
    );
}

#[test]
fn task_message_escapes_payload() {
    assert_eq!(
        task_text("id", "dir \"C:\\x\"\n"),
        r#"{"task_id":"id","type":"terminal","payload":"dir \"C:\\x\"\n"}"#
    );
}

#[test]
fn stream_chunk_appends_line_break() {
    assert_eq!(
        stream_chunk_text("t", "line"),
        r#"{"data":"line\r\n","task_id":"t","type":"stream_chunk"}"#
    );
}

#[test]
fn completion_message_with_exit_codes() {
    assert_eq!(
        completion_text("t", 0),
        r#"{"data":"\r\n[Process completed]\r\n","exit_code":0,"task_id":"t","type":"result"}"#
    );
    assert_eq!(
        completion_text("t", -1),
        r#"{"data":"\r\n[Process completed]\r\n","exit_code":-1,"task_id":"t","type":"result"}"#
    );
    assert_eq!(
        completion_text("t", i32::MIN),
        r#"{"data":"\r\n[Process completed]\r\n","exit_code":-2147483648,"task_id":"t","type":"result"}"#
    );
}

#[test]
fn decimal_numbers() {
    assert_eq!(decimal_text(0), "0");
    assert_eq!(decimal_text(9), "9");
    assert_eq!(decimal_text(10), "10");
    assert_eq!(decimal_text(u64::MAX), "18446744073709551615");
    assert_eq!(signed_decimal_text(-7), "-7");
    assert_eq!(signed_decimal_text(i32::MAX), "2147483647");
}

#[test]
fn objects_and_arrays() {
    assert_eq!(object_text(&vec![]), "{}");
    assert_eq!(array_text(&vec![]), "[]");
    assert_eq!(
        object_text(&vec![("a".to_string(), "1".to_string()), ("b".to_string(), "[]".to_string())]),
        r#"{"a":1,"b":[]}"#
    );
    assert_eq!(array_text(&vec!["1".to_string(), "\"x\"".to_string()]), r#"[1,"x"]"#);
}

#[test]
fn host_list_messages() {
    assert_eq!(host_list_text(&vec![]), r#"{"hosts":[],"type":"host_list"}"#);
    assert_eq!(
        host_list_text(&vec!["agent_1".to_string(), "agent_2".to_string()]),
        r#"{"hosts":[{"peer_id":"agent_1"},{"peer_id":"agent_2"}],"type":"host_list"}"#
    );
}

#[test]
fn signaling_client_messages() {
    assert_eq!(
        register_text("core_1234abcd", "default"),
        r#"{"cluster_key":"default","peer_id":"core_1234abcd","type":"register"}"#
    );
    assert_eq!(
        discover_hosts_text("core_1234abcd"),
        r#"{"peer_id":"core_1234abcd","type":"discover_hosts"}"#
    );
    assert_eq!(
        session_description_text("offer", "core_1", "agent_2", "v=0\r\n"),
        r#"{"sdp":{"sdp":"v=0\r\n","type":"offer"},"source_peer_id":"core_1","target_peer_id":"agent_2","type":"offer"}"#
    );
    assert_eq!(
        session_description_text("answer", "agent_2", "core_1", "v=0"),
        r#"{"sdp":{"sdp":"v=0","type":"answer"},"source_peer_id":"agent_2","target_peer_id":"core_1","type":"answer"}"#
    );
    assert_eq!(
        ice_candidate_text("a", "b", r#"{"candidate":"c"}"#),
        r#"{"candidate":{"candidate":"c"},"source_peer_id":"a","target_peer_id":"b","type":"ice-candidate"}"#
    );
}
