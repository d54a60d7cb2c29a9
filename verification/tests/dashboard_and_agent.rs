use virtioz_core::agent::agent_task;
use virtioz_core::router::{
    ipc_auth_failed_text, ipc_authenticated_text, is_ipc_auth, task_request, ui_request,
    KnownHosts, UiRequest,
};

fn s(x: &str) -> Option<String> {
    Some(x.to_string())
}

#[test]
fn dashboard_login() {
    assert!(is_ipc_auth(&s("auth"), &s("virtioz_local_ipc_admin")));
    assert!(!is_ipc_auth(&s("auth"), &s("wrong")));
    assert!(!is_ipc_auth(&s("auth"), &None));
    assert!(!is_ipc_auth(&s("task"), &s("virtioz_local_ipc_admin")));
    assert!(!is_ipc_auth(&None, &s("virtioz_local_ipc_admin")));
    assert_eq!(ipc_authenticated_text(), r#"{"message":"IPC Authenticated","type":"status"}"#);
    assert_eq!(ipc_auth_failed_text(), r#"{"message":"IPC Auth Failed","type":"status"}"#);
}

#[test]
fn task_request_for_a_given_id() {
    match task_request("0123456789abcdef0123456789abcdef".to_string(), &s("dir")) {
        UiRequest::Task { task_id, job, status } => {
            assert_eq!(task_id, "0123456789abcdef0123456789abcdef");
            assert_eq!(
                job,
                r#"{"task_id":"0123456789abcdef0123456789abcdef","type":"terminal","payload":"dir"}"#
            );
            assert_eq!(
                status,
                r#"{"message":"Task queued: 0123456789abcdef0123456789abcdef","type":"status"}"#
            );
        }
        _ => panic!("expected a task"),
    }
    match task_request("id".to_string(), &None) {
        UiRequest::Task { job, .. } => assert_eq!(job, r#"{"task_id":"id","type":"terminal","payload":""}"#),
        _ => panic!("expected a task"),
    }
}

#[test]
fn dashboard_task_gets_fresh_id() {
    match ui_request(&s("task"), &s("echo hi"), &None, &"{}".to_string()) {
        UiRequest::Task { task_id, job, status } => {
            assert_eq!(task_id.len(), 32);
            assert_eq!(job, format!(r#"{{"task_id":"{}","type":"terminal","payload":"echo hi"}}"#, task_id));
            assert_eq!(status, format!(r#"{{"message":"Task queued: {}","type":"status"}}"#, task_id));
        }
        _ => panic!("expected a task"),
    }
}

#[test]
fn dashboard_stdin_is_forwarded_as_it_came() {
    let text = r#"{"type":"stdin","task_id":"t1","data":"y"}"#.to_string();
    match ui_request(&s("stdin"), &None, &s("t1"), &text) {
        UiRequest::Stdin { task_id, job } => {
            assert_eq!(task_id, "t1");
            assert_eq!(job, text);
        }
        _ => panic!("expected stdin"),
    }
    match ui_request(&s("stdin"), &None, &None, &text) {
        UiRequest::Stdin { task_id, .. } => assert_eq!(task_id, ""),
        _ => panic!("expected stdin"),
    }
}

#[test]
fn other_dashboard_messages_are_ignored() {
    assert!(matches!(ui_request(&s("auth"), &None, &None, &String::new()), UiRequest::Ignore));
    assert!(matches!(ui_request(&None, &None, &None, &String::new()), UiRequest::Ignore));
}

#[test]
fn each_host_is_connected_once() {
    let mut known = KnownHosts::new();
    assert_eq!(known.take_new_host(&s("agent_1")), s("agent_1"));
    assert_eq!(known.take_new_host(&s("agent_1")), None);
    assert_eq!(known.take_new_host(&s("")), None);
    assert_eq!(known.take_new_host(&None), None);
    let entries = vec![s("agent_2"), None, s("agent_1"), s("agent_3"), s("agent_2"), s("")];
    assert_eq!(known.take_new_hosts(&entries), vec!["agent_2".to_string(), "agent_3".to_string()]);
    assert_eq!(known.take_new_hosts(&entries), Vec::<String>::new());
}

#[test]
fn agent_runs_terminal_tasks_only() {
    let task = agent_task(&s("terminal"), &s("dir"), &s("t1")).expect("a task");
    assert_eq!(task.task_id, "t1");
    assert_eq!(task.payload, "dir");
    let empty = agent_task(&s("terminal"), &None, &None).expect("a task");
    assert_eq!(empty.task_id, "");
    assert_eq!(empty.payload, "");
    assert!(agent_task(&s("stdin"), &s("dir"), &s("t1")).is_none());
    assert!(agent_task(&None, &s("dir"), &s("t1")).is_none());
}
