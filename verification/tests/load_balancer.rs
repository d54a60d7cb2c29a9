use virtioz_core::dispatch::{running_status_text, Dispatcher, Route, MAX_QUEUE_WAIT_SECS};

fn peers(names: &[&str]) -> Vec<String> {
    names.iter().map(|s| s.to_string()).collect()
}

fn t(x: &str) -> String {
    x.to_string()
}

fn dispatched(r: Route) -> String {
    match r {
        Route::Dispatched { peer_id } => peer_id,
        _ => panic!("expected a dispatch"),
    }
}

const TASK: &str = r#"{"task_id":"x","type":"terminal","payload":"dir"}"#;

#[test]
fn round_robin_walks_sorted_hosts_starting_after_the_last_position() {
    let mut d = Dispatcher::new();
    let open = peers(&["b", "a", "c"]);
    assert_eq!(dispatched(d.route(&t("t1"), &t(TASK), open.clone(), 0)), "b");
    assert_eq!(dispatched(d.route(&t("t2"), &t(TASK), open.clone(), 0)), "c");
    assert_eq!(dispatched(d.route(&t("t3"), &t(TASK), open.clone(), 0)), "a");
    assert!(matches!(d.route(&t("t4"), &t(TASK), open.clone(), 0), Route::Wait));
    d.host_message(&t("b"), &Some(t("result")), &Some(t("t1")));
    assert_eq!(dispatched(d.route(&t("t4"), &t(TASK), open.clone(), 1)), "b");
    assert!(d.is_busy(&t("a")) && d.is_busy(&t("b")) && d.is_busy(&t("c")));
    assert_eq!(d.host_of(&t("t4")), Some(t("b")));
    assert_eq!(d.host_of(&t("t1")), None);
}

#[test]
fn busy_hosts_are_skipped() {
    let mut d = Dispatcher::new();
    assert_eq!(dispatched(d.route(&t("t1"), &t(TASK), peers(&["x"]), 0)), "x");
    assert_eq!(dispatched(d.route(&t("t2"), &t(TASK), peers(&["x", "y", "z"]), 0)), "y");
    assert_eq!(dispatched(d.route(&t("t3"), &t(TASK), peers(&["x", "y", "z"]), 0)), "z");
}

#[test]
fn single_host_gets_the_task() {
    let mut d = Dispatcher::new();
    assert_eq!(dispatched(d.route(&t("t1"), &t(TASK), peers(&["only"]), 0)), "only");
    assert!(matches!(d.route(&t("t2"), &t(TASK), peers(&["only"]), 0), Route::Wait));
}

#[test]
fn stdin_goes_to_the_host_running_the_task() {
    let mut d = Dispatcher::new();
    assert_eq!(dispatched(d.route(&t("t1"), &t(TASK), peers(&["a", "b"]), 0)), "b");
    let input = t(r#"{"type":"stdin","task_id":"t1","data":"y\n"}"#);
    match d.route(&t("t1"), &input, vec![], 0) {
        Route::Stdin { host } => assert_eq!(host, Some(t("b"))),
        _ => panic!("expected stdin routing"),
    }
    match d.route(&t("unknown"), &input, peers(&["a"]), 0) {
        Route::Stdin { host } => assert_eq!(host, None),
        _ => panic!("expected stdin routing"),
    }
}

#[test]
fn stdin_marker_must_match_exactly() {
    let mut d = Dispatcher::new();
    let spaced = t(r#"{"type": "stdin","task_id":"t1"}"#);
    assert_eq!(dispatched(d.route(&t("t1"), &spaced, peers(&["a"]), 0)), "a");
}

#[test]
fn no_open_host_fails_at_once() {
    let mut d = Dispatcher::new();
    match d.route(&t("t9"), &t(TASK), vec![], 0) {
        Route::NoNodes { reply } => assert_eq!(
            reply,
            r#"{"error":"No active nodes in swarm","task_id":"t9","type":"result"}"#
        ),
        _ => panic!("expected no nodes"),
    }
}

#[test]
fn queue_times_out_after_the_limit() {
    let mut d = Dispatcher::new();
    d.route(&t("t1"), &t(TASK), peers(&["a"]), 0);
    assert!(matches!(d.route(&t("t2"), &t(TASK), peers(&["a"]), MAX_QUEUE_WAIT_SECS - 1), Route::Wait));
    match d.route(&t("t2"), &t(TASK), peers(&["a"]), MAX_QUEUE_WAIT_SECS) {
        Route::TimedOut { reply } => assert_eq!(
            reply,
            r#"{"error":"Swarm is fully saturated (Queue timeout)","task_id":"t2","type":"result"}"#
        ),
        _ => panic!("expected a timeout"),
    }
    match d.route(&t("t3"), &t(TASK), vec![], MAX_QUEUE_WAIT_SECS) {
        Route::TimedOut { .. } => {}
        _ => panic!("the time limit is checked before the hosts"),
    }
    assert_eq!(MAX_QUEUE_WAIT_SECS, 300);
}

#[test]
fn failed_send_frees_the_host_and_forgets_the_task() {
    let mut d = Dispatcher::new();
    let p = dispatched(d.route(&t("t1"), &t(TASK), peers(&["a"]), 0));
    let reply = d.send_failed(&t("t1"), &p, "channel closed");
    assert_eq!(reply, r#"{"error":"Send error: channel closed","task_id":"t1","type":"result"}"#);
    assert!(!d.is_busy(&t("a")));
    assert_eq!(d.host_of(&t("t1")), None);
}

#[test]
fn only_results_free_hosts() {
    let mut d = Dispatcher::new();
    d.route(&t("t1"), &t(TASK), peers(&["a"]), 0);
    d.host_message(&t("a"), &Some(t("stream_chunk")), &Some(t("t1")));
    assert!(d.is_busy(&t("a")));
    assert_eq!(d.host_of(&t("t1")), Some(t("a")));
    d.host_message(&t("a"), &None, &Some(t("t1")));
    assert!(d.is_busy(&t("a")));
    d.host_message(&t("a"), &Some(t("result")), &None);
    assert!(!d.is_busy(&t("a")));
    assert_eq!(d.host_of(&t("t1")), Some(t("a")));
    d.host_message(&t("a"), &Some(t("result")), &Some(t("t1")));
    assert_eq!(d.host_of(&t("t1")), None);
}

#[test]
fn running_status_message() {
    assert_eq!(
        running_status_text("t1", "agent_1"),
        r#"{"message":"Task t1 running on agent_1","type":"status"}"#
    );
}

#[test]
fn waits_only_while_every_open_host_is_busy() {
    let mut d = Dispatcher::new();
    d.route(&t("t1"), &t(TASK), peers(&["a", "b"]), 0);
    d.route(&t("t2"), &t(TASK), peers(&["a", "b"]), 0);
    assert!(matches!(d.route(&t("t3"), &t(TASK), peers(&["a", "b"]), 0), Route::Wait));
    assert_eq!(dispatched(d.route(&t("t3"), &t(TASK), peers(&["a", "b", "c"]), 0)), "c");
}

#[test]
fn idle_hosts_take_turns() {
    let mut d = Dispatcher::new();
    let open = peers(&["a", "b", "c", "d"]);
    let mut seen = Vec::new();
    for i in 0..4 {
        let id = format!("t{}", i);
        let p = dispatched(d.route(&id, &t(TASK), open.clone(), 0));
        d.host_message(&p, &Some(t("result")), &Some(id));
        seen.push(p);
    }
    assert_eq!(seen, peers(&["b", "c", "d", "a"]));
}

#[test]
fn a_host_is_busy_exactly_while_it_runs_its_task() {
    let mut d = Dispatcher::new();
    let open = peers(&["a", "b"]);
    let first = dispatched(d.route(&t("t1"), &t(TASK), open.clone(), 0));
    let second = dispatched(d.route(&t("t2"), &t(TASK), open.clone(), 0));
    assert_ne!(first, second);
    assert!(d.is_busy(&first) && d.is_busy(&second));
    assert_eq!(d.host_of(&t("t1")), Some(first.clone()));
    assert_eq!(d.host_of(&t("t2")), Some(second.clone()));
    d.host_message(&first, &Some(t("result")), &Some(t("t1")));
    assert!(!d.is_busy(&first));
    assert!(d.is_busy(&second));
    assert_eq!(d.host_of(&t("t1")), None);
    assert_eq!(d.host_of(&t("t2")), Some(second));
}
