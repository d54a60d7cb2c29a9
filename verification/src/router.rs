//! The router's side towards the dashboard and towards the hosts it
//! discovers: the dashboard's login, the requests it sends, and the hosts
//! the router has already connected to.
use vstd::prelude::*;
use crate::ids::is_simple_uuid;
use crate::ids::new_task_id;
use crate::json::string_views;
use crate::messages::status_json;
use crate::messages::status_text;
use crate::messages::task_json;
use crate::messages::task_text;
use crate::strmap::StrSet;
use crate::text::is_some_str;
use crate::text::opt_view;
use crate::text::or_empty;
use crate::text::string_or_empty;
use crate::wire::array_field_strs_of;
use crate::wire::is_json;
use crate::wire::json_array_field_strs;
use crate::wire::json_is_valid;
use crate::wire::json_str_field;
use crate::wire::opt_views;
use crate::wire::str_field_of;

verus! {

/// The token with which the dashboard logs in.
pub open spec fn ipc_token() -> Seq<char> {
    "virtioz_local_ipc_admin"@
}

/// Whether the dashboard's first message logs it in: its `type` is `auth`
/// and its `token` is the dashboard token.
pub fn is_ipc_auth(msg_type: &Option<String>, token: &Option<String>) -> (r: bool)
    ensures
        r == (opt_view(*msg_type) == Some("auth"@) && opt_view(*token) == Some(ipc_token())),
{
    is_some_str(msg_type, "auth") && is_some_str(token, "virtioz_local_ipc_admin")
}

/// The reply to a dashboard whose login succeeded.
pub fn ipc_authenticated_text() -> (r: String)
    ensures
        r@ == status_json("IPC Authenticated"@),
{
    status_text("IPC Authenticated")
}

/// The reply to a dashboard whose login failed.
pub fn ipc_auth_failed_text() -> (r: String)
    ensures
        r@ == status_json("IPC Auth Failed"@),
{
    status_text("IPC Auth Failed")
}

/// How the router answers the dashboard's first message.
pub enum IpcLogin {
    /// The dashboard logged in: send `reply` and serve it.
    Accepted { reply: String },
    /// The login failed: send `reply` and serve nothing.
    Refused { reply: String },
    /// The message is not JSON: send nothing and serve nothing.
    Unreadable,
}

/// Reads the dashboard's first message, `text`.
pub fn ipc_login(text: &str) -> (r: IpcLogin)
    ensures
        !json_is_valid(text@) ==> r is Unreadable,
        json_is_valid(text@) && json_str_field(text@, "type"@) == Some("auth"@) && json_str_field(
            text@,
            "token"@,
        ) == Some(ipc_token()) ==> (r matches IpcLogin::Accepted { reply } && reply@ == status_json(
            "IPC Authenticated"@,
        )),
        json_is_valid(text@) && !(json_str_field(text@, "type"@) == Some("auth"@) && json_str_field(
            text@,
            "token"@,
        ) == Some(ipc_token())) ==> (r matches IpcLogin::Refused { reply } && reply@ == status_json(
            "IPC Auth Failed"@,
        )),
{
    if !is_json(text) {
        return IpcLogin::Unreadable;
    }
    if is_ipc_auth(&str_field_of(text, "type"), &str_field_of(text, "token")) {
        IpcLogin::Accepted { reply: ipc_authenticated_text() }
    } else {
        IpcLogin::Refused { reply: ipc_auth_failed_text() }
    }
}

/// What the router does with a message from the dashboard.
pub enum UiRequest {
    /// Queue the new task `task_id`, whose text for the host is `job`, and
    /// broadcast `status`.
    Task { task_id: String, job: String, status: String },
    /// Queue `job`, the message as it came, as input for the running task
    /// `task_id`.
    Stdin { task_id: String, job: String },
    /// Nothing to do.
    Ignore,
}

/// The message that the dashboard's request to run `payload` becomes once
/// it has the id `task_id`: the task's text for a host, and the status that
/// reports it queued.
pub fn task_request(task_id: String, payload: &Option<String>) -> (r: UiRequest)
    ensures
        r matches UiRequest::Task { task_id: id, job, status } && id@ == task_id@ && job@
            == task_json(task_id@, or_empty(*payload)) && status@ == status_json(
            "Task queued: "@ + task_id@,
        ),
{
    let p = string_or_empty(payload);
    let job = task_text(task_id.as_str(), p.as_str());
    let message = String::from_str("Task queued: ").concat(task_id.as_str());
    let status = status_text(message.as_str());
    UiRequest::Task { task_id, job, status }
}

/// Handles a message of the dashboard: `text` as it came, with its fields
/// `type`, `payload` and `task_id` as far as they hold strings.
///
/// A `task` gets a fresh random id and becomes a task for a host; `stdin`
/// is input for the running task it names; anything else is ignored.
pub fn ui_request(
    msg_type: &Option<String>,
    payload: &Option<String>,
    task_id: &Option<String>,
    text: &String,
) -> (r: UiRequest)
    ensures
        opt_view(*msg_type) == Some("task"@) ==> (r matches UiRequest::Task { task_id: id, job, status }
            && is_simple_uuid(id@) && job@ == task_json(id@, or_empty(*payload)) && status@
            == status_json("Task queued: "@ + id@)),
        opt_view(*msg_type) == Some("stdin"@) ==> (r matches UiRequest::Stdin { task_id: id, job }
            && id@ == or_empty(*task_id) && job@ == text@),
        opt_view(*msg_type) != Some("task"@) && opt_view(*msg_type) != Some("stdin"@) ==> r is Ignore,
{
    proof {
        reveal_strlit("task");
        reveal_strlit("stdin");
        assert("task"@.len() != "stdin"@.len());
    }
    if is_some_str(msg_type, "task") {
        let id = new_task_id();
        task_request(id, payload)
    } else if is_some_str(msg_type, "stdin") {
        UiRequest::Stdin { task_id: string_or_empty(task_id), job: text.clone() }
    } else {
        UiRequest::Ignore
    }
}

/// Handles the dashboard's message `text`, read for its fields `type`,
/// `payload` and `task_id`.
pub fn ui_request_of(text: &String) -> (r: UiRequest)
    ensures
        json_str_field(text@, "type"@) == Some("task"@) ==> (r matches UiRequest::Task {
            task_id: id,
            job,
            status,
        } && is_simple_uuid(id@) && job@ == task_json(
            id@,
            crate::signaling::view_or_empty(json_str_field(text@, "payload"@)),
        ) && status@ == status_json("Task queued: "@ + id@)),
        json_str_field(text@, "type"@) == Some("stdin"@) ==> (r matches UiRequest::Stdin {
            task_id: id,
            job,
        } && id@ == crate::signaling::view_or_empty(json_str_field(text@, "task_id"@)) && job@
            == text@),
        json_str_field(text@, "type"@) != Some("task"@) && json_str_field(text@, "type"@) != Some(
            "stdin"@,
        ) ==> r is Ignore,
{
    let msg_type = str_field_of(text.as_str(), "type");
    let payload = str_field_of(text.as_str(), "payload");
    let task_id = str_field_of(text.as_str(), "task_id");
    proof {
        assert(or_empty(payload) == crate::signaling::view_or_empty(opt_view(payload)));
        assert(or_empty(task_id) == crate::signaling::view_or_empty(opt_view(task_id)));
    }
    ui_request(&msg_type, &payload, &task_id, text)
}

/// The entries of a `host_list` message: for each item of its array
/// `hosts`, the item's `peer_id` when it is a string; none when `hosts` is
/// not an array.
pub fn host_entries_of(text: &str) -> (r: Option<Vec<Option<String>>>)
    ensures
        match r {
            Some(v) => json_array_field_strs(text@, "hosts"@, "peer_id"@) == Some(opt_views(v@)),
            None => json_array_field_strs(text@, "hosts"@, "peer_id"@) is None,
        },
{
    array_field_strs_of(text, "hosts", "peer_id")
}

/// The ids that the entries of a host list name, an entry without a string
/// naming the empty id.
pub open spec fn entry_names(entries: Seq<Option<String>>) -> Seq<Seq<char>> {
    entries.map_values(|e: Option<String>| or_empty(e))
}

/// The hosts that a host list naming `names` newly brings, when the hosts
/// in `seen` are already known: each non-empty name that is not known, once,
/// in the order of its first occurrence.
pub open spec fn new_hosts(names: Seq<Seq<char>>, seen: Set<Seq<char>>) -> Seq<Seq<char>>
    decreases names.len(),
{
    if names.len() == 0 {
        seq![]
    } else {
        let prev = new_hosts(names.drop_last(), seen);
        let x = names.last();
        if x.len() > 0 && !seen.contains(x) && !prev.contains(x) {
            prev.push(x)
        } else {
            prev
        }
    }
}

/// The non-empty names among `names`.
pub open spec fn nonempty_names(names: Seq<Seq<char>>) -> Set<Seq<char>> {
    Set::new(|x: Seq<char>| x.len() > 0 && names.contains(x))
}

/// The hosts to which the router has already opened a connection.
pub struct KnownHosts {
    seen: StrSet,
}

impl KnownHosts {
    /// The ids of the hosts already seen.
    pub closed spec fn seen(&self) -> Set<Seq<char>> {
        self.seen@
    }

    /// The set is well formed.
    pub closed spec fn wf(&self) -> bool {
        self.seen.wf()
    }

    /// No host seen yet.
    pub fn new() -> (r: KnownHosts)
        ensures
            r.wf(),
            r.seen() == Set::<Seq<char>>::empty(),
    {
        KnownHosts { seen: StrSet::new() }
    }

    /// Whether the host `peer_id` has been seen.
    pub fn contains(&self, peer_id: &String) -> (r: bool)
        ensures
            r == self.seen().contains(peer_id@),
    {
        self.seen.contains(peer_id)
    }

    /// An entry of a host list names `peer_id`, when it holds a string. The
    /// host is new when its id is not empty and was not seen before; a new
    /// host is returned, and counts as seen from now on.
    pub fn take_new_host(&mut self, peer_id: &Option<String>) -> (r: Option<String>)
        requires
            old(self).wf(),
        ensures
            final(self).wf(),
            r is Some <==> (or_empty(*peer_id).len() > 0 && !old(self).seen().contains(
                or_empty(*peer_id),
            )),
            r matches Some(id) ==> id@ == or_empty(*peer_id) && final(self).seen() == old(
                self,
            ).seen().insert(id@),
            r is None ==> final(self).seen() == old(self).seen(),
    {
        let id = string_or_empty(peer_id);
        if id.as_str().is_empty() {
            return None;
        }
        if self.seen.contains(&id) {
            return None;
        }
        self.seen.insert(id.clone());
        Some(id)
    }

    /// Goes through the entries of a host list in order and returns the new
    /// hosts, each once, in the order in which they first occur. The
    /// contract fixes which hosts are returned, not their order.
    pub fn take_new_hosts(&mut self, entries: &Vec<Option<String>>) -> (r: Vec<String>)
        requires
            old(self).wf(),
        ensures
            final(self).wf(),
            string_views(r@).no_duplicates(),
            forall|i: int|
                0 <= i < r@.len() ==> !old(self).seen().contains(#[trigger] r@[i]@) && r@[i]@.len()
                    > 0 && entry_names(entries@).contains(r@[i]@),
            final(self).seen() == old(self).seen().union(string_views(r@).to_set()),
            forall|j: int|
                0 <= j < entries@.len() && or_empty(#[trigger] entries@[j]).len() > 0
                    ==> final(self).seen().contains(or_empty(entries@[j])),
            string_views(r@) == new_hosts(entry_names(entries@), old(self).seen()),
            final(self).seen() == old(self).seen().union(nonempty_names(entry_names(entries@))),
    {
        let mut r: Vec<String> = Vec::new();
        let mut i: usize = 0;
        while i < entries.len()
            invariant
                self.wf(),
                i <= entries@.len(),
                string_views(r@).no_duplicates(),
                forall|k: int|
                    0 <= k < r@.len() ==> !old(self).seen().contains(#[trigger] r@[k]@) && r@[k]@.len()
                        > 0 && entry_names(entries@).subrange(0, i as int).contains(r@[k]@),
                self.seen() == old(self).seen().union(string_views(r@).to_set()),
                string_views(r@) == new_hosts(entry_names(entries@).take(i as int), old(self).seen()),
                forall|j: int|
                    0 <= j < i && or_empty(#[trigger] entries@[j]).len() > 0 ==> self.seen().contains(
                        or_empty(entries@[j]),
                    ),
            decreases entries.len() - i,
        {
            let ghost before = r@;
            let ghost seen_before = self.seen();
            match self.take_new_host(&entries[i]) {
                Some(id) => {
                    r.push(id);
                    proof {
                        let sv = string_views(r@);
                        assert(sv =~= string_views(before).push(or_empty(entries@[i as int])));
                        assert(!string_views(before).contains(or_empty(entries@[i as int])));
                        assert(sv.no_duplicates()) by {
                            assert forall|a: int, b: int|
                                0 <= a < sv.len() && 0 <= b < sv.len() && a != b implies sv[a]
                                != sv[b] by {
                                if a == before.len() {
                                    assert(string_views(before).contains(sv[b]));
                                } else if b == before.len() {
                                    assert(string_views(before).contains(sv[a]));
                                }
                            }
                        }
                        let nv = or_empty(entries@[i as int]);
                        let bv = string_views(before);
                        assert forall|x: Seq<char>| sv.to_set().contains(x) == bv.to_set().insert(
                            nv,
                        ).contains(x) by {
                            if bv.contains(x) {
                                let k = choose|k: int| 0 <= k < bv.len() && bv[k] == x;
                                assert(sv[k] == x);
                            }
                            if x == nv {
                                assert(sv[bv.len() as int] == x);
                            }
                            if sv.contains(x) {
                                let k = choose|k: int| 0 <= k < sv.len() && sv[k] == x;
                                if k < bv.len() {
                                    assert(bv[k] == x);
                                }
                            }
                        }
                        assert(sv.to_set() =~= bv.to_set().insert(nv));
                        assert(self.seen() =~= old(self).seen().union(sv.to_set()));
                        let names = entry_names(entries@);
                        assert forall|k: int| 0 <= k < r@.len() implies !old(self).seen().contains(
                            #[trigger] r@[k]@,
                        ) && r@[k]@.len() > 0 && names.subrange(0, i + 1).contains(r@[k]@) by {
                            if k < before.len() {
                                assert(r@[k] == before[k]);
                                let j = choose|j: int| 0 <= j < i && names.subrange(0, i as int)[j] == r@[k]@;
                                assert(names.subrange(0, i + 1)[j] == r@[k]@);
                            } else {
                                assert(names.subrange(0, i + 1)[i as int] == r@[k]@);
                            }
                        }
                    }
                },
                None => {
                    proof {
                        let names = entry_names(entries@);
                        assert forall|k: int| 0 <= k < r@.len() implies names.subrange(0, i + 1).contains(
                            #[trigger] r@[k]@,
                        ) by {
                            let j = choose|j: int| 0 <= j < i && names.subrange(0, i as int)[j] == r@[k]@;
                            assert(names.subrange(0, i + 1)[j] == r@[k]@);
                        }
                    }
                },
            }
            proof {
                let names = entry_names(entries@);
                let x = names[i as int];
                assert(names.take(i + 1).drop_last() =~= names.take(i as int));
                assert(names.take(i + 1).last() == x);
                assert(x == or_empty(entries@[i as int]));
                let prev = new_hosts(names.take(i as int), old(self).seen());
                assert(prev == string_views(before));
                assert(string_views(before).to_set().contains(x) <==> prev.contains(x));
            }
            i = i + 1;
        }
        assert(entry_names(entries@).subrange(0, entries@.len() as int) =~= entry_names(entries@));
        assert(entry_names(entries@).take(entries@.len() as int) =~= entry_names(entries@));
        proof {
            let names = entry_names(entries@);
            assert forall|x: Seq<char>| self.seen().contains(x) == old(self).seen().union(
                nonempty_names(names),
            ).contains(x) by {
                if nonempty_names(names).contains(x) {
                    let j = choose|j: int| 0 <= j < names.len() && names[j] == x;
                    assert(or_empty(entries@[j]) == x);
                }
                if string_views(r@).to_set().contains(x) {
                    let k = choose|k: int| 0 <= k < r@.len() && string_views(r@)[k] == x;
                    assert(r@[k]@ == x);
                }
            }
            assert(self.seen() =~= old(self).seen().union(nonempty_names(names)));
        }
        r
    }
}

}
