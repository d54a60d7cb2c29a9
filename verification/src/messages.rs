//! The JSON messages that the router and the agents write for each other
//! and for the dashboard.
use vstd::prelude::*;
use crate::json::decimal;
use crate::json::decimal_text;
use crate::json::json_object;
use crate::json::json_quoted;
use crate::json::object_text;
use crate::json::pair_views;
use crate::json::quote;
use crate::json::signed_decimal;
use crate::json::signed_decimal_text;

verus! {

/// A `status` message for the dashboard.
pub open spec fn status_json(message: Seq<char>) -> Seq<char> {
    json_object(seq![("message"@, json_quoted(message)), ("type"@, json_quoted("status"@))])
}

/// A `result` message that reports an error for a task.
pub open spec fn result_error_json(error: Seq<char>, task_id: Seq<char>) -> Seq<char> {
    json_object(
        seq![
            ("error"@, json_quoted(error)),
            ("task_id"@, json_quoted(task_id)),
            ("type"@, json_quoted("result"@)),
        ],
    )
}

/// A `telemetry` message with the number of open host channels.
pub open spec fn telemetry_json(active_nodes: nat) -> Seq<char> {
    json_object(seq![("active_nodes"@, decimal(active_nodes)), ("type"@, json_quoted("telemetry"@))])
}

/// A task for an agent: run `payload` in a terminal.
pub open spec fn task_json(task_id: Seq<char>, payload: Seq<char>) -> Seq<char> {
    json_object(
        seq![
            ("task_id"@, json_quoted(task_id)),
            ("type"@, json_quoted("terminal"@)),
            ("payload"@, json_quoted(payload)),
        ],
    )
}

/// A line of a task's output, with the line break that ends it.
pub open spec fn stream_chunk_json(task_id: Seq<char>, line: Seq<char>) -> Seq<char> {
    json_object(
        seq![
            ("data"@, json_quoted(line + "\r\n"@)),
            ("task_id"@, json_quoted(task_id)),
            ("type"@, json_quoted("stream_chunk"@)),
        ],
    )
}

/// The `result` message of a task whose process ended with `exit_code`.
pub open spec fn completion_json(task_id: Seq<char>, exit_code: int) -> Seq<char> {
    json_object(
        seq![
            ("data"@, json_quoted("\r\n[Process completed]\r\n"@)),
            ("exit_code"@, signed_decimal(exit_code)),
            ("task_id"@, json_quoted(task_id)),
            ("type"@, json_quoted("result"@)),
        ],
    )
}

/// A `status` message for the dashboard.
pub fn status_text(message: &str) -> (r: String)
    ensures
        r@ == status_json(message@),
{
    let mut f: Vec<(String, String)> = Vec::new();
    f.push((String::from_str("message"), quote(message)));
    f.push((String::from_str("type"), quote("status")));
    assert(pair_views(f@) =~= seq![("message"@, json_quoted(message@)), ("type"@, json_quoted("status"@))]);
    object_text(&f)
}

/// A `result` message that reports `error` for `task_id`.
pub fn result_error_text(error: &str, task_id: &str) -> (r: String)
    ensures
        r@ == result_error_json(error@, task_id@),
{
    let mut f: Vec<(String, String)> = Vec::new();
    f.push((String::from_str("error"), quote(error)));
    f.push((String::from_str("task_id"), quote(task_id)));
    f.push((String::from_str("type"), quote("result")));
    assert(pair_views(f@) =~= seq![
        ("error"@, json_quoted(error@)),
        ("task_id"@, json_quoted(task_id@)),
        ("type"@, json_quoted("result"@)),
    ]);
    object_text(&f)
}

/// A `telemetry` message reporting `active_nodes` open host channels.
pub fn telemetry_text(active_nodes: usize) -> (r: String)
    ensures
        r@ == telemetry_json(active_nodes as nat),
{
    let mut f: Vec<(String, String)> = Vec::new();
    f.push((String::from_str("active_nodes"), decimal_text(active_nodes as u64)));
    f.push((String::from_str("type"), quote("telemetry")));
    assert(pair_views(f@) =~= seq![
        ("active_nodes"@, decimal(active_nodes as nat)),
        ("type"@, json_quoted("telemetry"@)),
    ]);
    object_text(&f)
}

/// The task that asks an agent to run `payload`, as `task_id`.
pub fn task_text(task_id: &str, payload: &str) -> (r: String)
    ensures
        r@ == task_json(task_id@, payload@),
{
    let mut f: Vec<(String, String)> = Vec::new();
    f.push((String::from_str("task_id"), quote(task_id)));
    f.push((String::from_str("type"), quote("terminal")));
    f.push((String::from_str("payload"), quote(payload)));
    assert(pair_views(f@) =~= seq![
        ("task_id"@, json_quoted(task_id@)),
        ("type"@, json_quoted("terminal"@)),
        ("payload"@, json_quoted(payload@)),
    ]);
    object_text(&f)
}

/// A line of output of `task_id`.
pub fn stream_chunk_text(task_id: &str, line: &str) -> (r: String)
    ensures
        r@ == stream_chunk_json(task_id@, line@),
{
    let data = String::from_str(line).concat("\r\n");
    let mut f: Vec<(String, String)> = Vec::new();
    f.push((String::from_str("data"), quote(data.as_str())));
    f.push((String::from_str("task_id"), quote(task_id)));
    f.push((String::from_str("type"), quote("stream_chunk")));
    assert(pair_views(f@) =~= seq![
        ("data"@, json_quoted(line@ + "\r\n"@)),
        ("task_id"@, json_quoted(task_id@)),
        ("type"@, json_quoted("stream_chunk"@)),
    ]);
    object_text(&f)
}

/// The `result` message of `task_id`, whose process ended with
/// `exit_code`.
pub fn completion_text(task_id: &str, exit_code: i32) -> (r: String)
    ensures
        r@ == completion_json(task_id@, exit_code as int),
{
    let mut f: Vec<(String, String)> = Vec::new();
    f.push((String::from_str("data"), quote("\r\n[Process completed]\r\n")));
    f.push((String::from_str("exit_code"), signed_decimal_text(exit_code)));
    f.push((String::from_str("task_id"), quote(task_id)));
    f.push((String::from_str("type"), quote("result")));
    assert(pair_views(f@) =~= seq![
        ("data"@, json_quoted("\r\n[Process completed]\r\n"@)),
        ("exit_code"@, signed_decimal(exit_code as int)),
        ("task_id"@, json_quoted(task_id@)),
        ("type"@, json_quoted("result"@)),
    ]);
    object_text(&f)
}

}
