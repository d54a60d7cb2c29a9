//! The router's load balancer: it hands each queued task to an idle host,
//! walking the open hosts round-robin in lexicographic order, routes the
//! input of a running task to the host that runs it, and frees a host when
//! it reports a task's result.
use vstd::prelude::*;
use crate::json::string_views;
use crate::messages::result_error_json;
use crate::messages::result_error_text;
use crate::messages::status_json;
use crate::messages::status_text;
use crate::order::lex_order;
use crate::order::sort_strings;
use crate::strmap::StrMap;
use crate::strmap::StrSet;
use crate::text::contains;
use crate::text::contains_seq;
use crate::text::is_some_str;
use crate::text::opt_view;
use crate::wire::json_str_field;
use crate::wire::json_with_member;
use crate::wire::message_text;
use crate::wire::message_text_of;
use crate::wire::str_field_of;
use crate::wire::with_member;

verus! {

/// How many seconds a task may wait for an idle host before it is given up.
pub const MAX_QUEUE_WAIT_SECS: u64 = 300;

/// The marker by which a queued job is recognised as input for a running
/// task rather than as a new task.
pub open spec fn stdin_marker() -> Seq<char> {
    "\"type\":\"stdin\""@
}

/// A queued job is input for a running task.
pub open spec fn is_stdin_job(job: Seq<char>) -> bool {
    contains_seq(job, stdin_marker())
}

/// The position that the round-robin walk over `n` hosts visits at its
/// `k`-th step when it starts after position `rr`.
pub open spec fn scan_pos(rr: int, k: int, n: int) -> int {
    (rr + k) % n
}

/// The walk over `keys` that starts after `rr` meets its first idle host
/// at step `k`.
pub open spec fn first_idle_at(keys: Seq<Seq<char>>, busy: Set<Seq<char>>, rr: int, k: int) -> bool {
    let n = keys.len() as int;
    &&& 1 <= k <= n
    &&& !busy.contains(keys[scan_pos(rr, k, n)])
    &&& forall|j: int| 1 <= j < k ==> busy.contains(#[trigger] keys[scan_pos(rr, j, n)])
}

/// Every host that the walk over `keys` from `rr` meets is busy.
pub open spec fn walk_all_busy(keys: Seq<Seq<char>>, busy: Set<Seq<char>>, rr: int) -> bool {
    let n = keys.len() as int;
    forall|j: int| 1 <= j <= n ==> busy.contains(#[trigger] keys[scan_pos(rr, j, n)])
}

/// The order in which the router walks the open hosts.
pub open spec fn walk_order(open_peers: Seq<Seq<char>>) -> Seq<Seq<char>> {
    open_peers.sort_by(lex_order())
}

/// The walk from any start meets every position within `n` steps.
pub proof fn lemma_walk_covers(rr: int, n: int, i: int)
    requires
        0 <= rr,
        0 <= i < n,
    ensures
        exists|j: int| 1 <= j <= n && scan_pos(rr, j, n) == i,
{
    let r0 = rr % n;
    let q = rr / n;
    vstd::arithmetic::div_mod::lemma_fundamental_div_mod(rr, n);
    assert(0 <= r0 < n) by {
        vstd::arithmetic::div_mod::lemma_mod_bound(rr, n);
    }
    let j = if i > r0 {
        i - r0
    } else {
        i - r0 + n
    };
    if i > r0 {
        assert(rr + j == q * n + i) by (nonlinear_arith)
            requires
                rr == n * q + r0,
                j == i - r0,
        ;
        vstd::arithmetic::div_mod::lemma_fundamental_div_mod_converse_mod(rr + j, n, q, i);
    } else {
        assert(rr + j == (q + 1) * n + i) by (nonlinear_arith)
            requires
                rr == n * q + r0,
                j == i - r0 + n,
        ;
        vstd::arithmetic::div_mod::lemma_fundamental_div_mod_converse_mod(rr + j, n, q + 1, i);
    }
    assert(scan_pos(rr, j, n) == i);
}

/// The walk meets only busy hosts exactly when every host is busy.
pub proof fn lemma_walk_all_busy_iff(keys: Seq<Seq<char>>, busy: Set<Seq<char>>, rr: int)
    requires
        0 <= rr,
        keys.len() > 0,
    ensures
        walk_all_busy(keys, busy, rr) <==> forall|i: int|
            0 <= i < keys.len() ==> busy.contains(#[trigger] keys[i]),
{
    let n = keys.len() as int;
    if walk_all_busy(keys, busy, rr) {
        assert forall|i: int| 0 <= i < n implies busy.contains(#[trigger] keys[i]) by {
            lemma_walk_covers(rr, n, i);
            let j = choose|j: int| 1 <= j <= n && scan_pos(rr, j, n) == i;
            assert(busy.contains(keys[scan_pos(rr, j, n)]));
        }
    }
    assert forall|j: int| 1 <= j <= n implies 0 <= #[trigger] scan_pos(rr, j, n) < n by {
        vstd::arithmetic::div_mod::lemma_mod_bound(rr + j, n);
    }
}

/// Whether the queued job `job` is input for a running task.
pub fn is_input_job(job: &str) -> (r: bool)
    ensures
        r == is_stdin_job(job@),
{
    contains(job, "\"type\":\"stdin\"")
}

/// Walks `keys` round-robin from after position `rr` and returns the
/// position of the first idle host, if any, and where the walk stopped.
fn select_idle(keys: &Vec<String>, busy: &StrSet, rr: usize) -> (r: (Option<usize>, usize))
    requires
        keys.len() > 0,
        rr < usize::MAX,
    ensures
        r.1 < keys.len(),
        r.0 matches Some(i) ==> {
            &&& i == r.1
            &&& exists|k: int| #[trigger]
                first_idle_at(string_views(keys@), busy@, rr as int, k) && i == scan_pos(
                    rr as int,
                    k,
                    keys.len() as int,
                )
        },
        r.0 is None ==> {
            &&& walk_all_busy(string_views(keys@), busy@, rr as int)
            &&& r.1 == scan_pos(rr as int, keys.len() as int, keys.len() as int)
        },
{
    let n = keys.len();
    let ghost kv = string_views(keys@);
    let mut idx: usize = rr;
    let mut step: usize = 0;
    while step < n
        invariant
            n == keys.len(),
            kv == string_views(keys@),
            n > 0,
            step <= n,
            step == 0 ==> idx == rr,
            step > 0 ==> idx == scan_pos(rr as int, step as int, n as int),
            idx < usize::MAX,
            forall|j: int| 1 <= j <= step ==> busy@.contains(#[trigger] kv[scan_pos(rr as int, j, n as int)]),
        decreases n - step,
    {
        let ghost prev = idx;
        idx = (idx + 1) % n;
        step = step + 1;
        proof {
            if step > 1 {
                vstd::arithmetic::div_mod::lemma_add_mod_noop_right(1, rr + step - 1, n as int);
            }
            assert(idx == scan_pos(rr as int, step as int, n as int));
        }
        if !busy.contains(&keys[idx]) {
            proof {
                assert(first_idle_at(kv, busy@, rr as int, step as int));
            }
            return (Some(idx), idx);
        }
    }
    proof {
        vstd::arithmetic::div_mod::lemma_mod_bound(rr + n, n as int);
    }
    (None, idx)
}

/// What the router does with a queued job.
pub enum Route {
    /// The job is input for a running task: pass it to `host`, the host
    /// that runs the task, if there is one.
    Stdin { host: Option<String> },
    /// The task waited too long for an idle host: broadcast `reply`.
    TimedOut { reply: String },
    /// No host is open: broadcast `reply`.
    NoNodes { reply: String },
    /// Send the task to `peer_id`, which is now busy with it.
    Dispatched { peer_id: String },
    /// Every open host is busy: wait a second and try again.
    Wait,
}

/// The router's bookkeeping: where the round-robin walk stands, which hosts
/// are busy, and which host runs which task.
pub struct Dispatcher {
    rr_idx: usize,
    busy: StrSet,
    tasks: StrMap,
}

/// The host to which the dispatcher `d` routes input for `task_id`: the
/// host that runs the task, if any.
pub open spec fn input_host(d: Dispatcher, task_id: Seq<char>) -> Option<Seq<char>> {
    if d.task_hosts().contains_key(task_id) {
        Some(d.task_hosts()[task_id])
    } else {
        None
    }
}

/// `after` is `before` once the walk over `keys` has handed `task_id` to
/// `peer_id`, the first idle host it met: the walk stopped there, the host
/// is busy and runs the task.
pub open spec fn dispatch_step(
    before: Dispatcher,
    after: Dispatcher,
    keys: Seq<Seq<char>>,
    task_id: Seq<char>,
    peer_id: Seq<char>,
) -> bool {
    exists|k: int| #[trigger]
        first_idle_at(keys, before.busy_hosts(), before.rr(), k) && {
            &&& peer_id == keys[scan_pos(before.rr(), k, keys.len() as int)]
            &&& after.rr() == scan_pos(before.rr(), k, keys.len() as int)
            &&& after.busy_hosts() == before.busy_hosts().insert(peer_id)
            &&& after.task_hosts() == before.task_hosts().insert(task_id, peer_id)
        }
}

/// `after` is `before` once `peer_id` is free again and `task`, when there
/// is one, is forgotten; the walk stays where it was.
pub open spec fn release_step(
    before: Dispatcher,
    after: Dispatcher,
    peer_id: Seq<char>,
    task: Option<Seq<char>>,
) -> bool {
    &&& after.rr() == before.rr()
    &&& after.busy_hosts() == before.busy_hosts().remove(peer_id)
    &&& after.task_hosts() == match task {
        Some(t) => before.task_hosts().remove(t),
        None => before.task_hosts(),
    }
}

impl Dispatcher {
    /// The position after which the next walk starts.
    pub closed spec fn rr(&self) -> int {
        self.rr_idx as int
    }

    /// The hosts that run a task.
    pub closed spec fn busy_hosts(&self) -> Set<Seq<char>> {
        self.busy@
    }

    /// Each running task mapped to the host that runs it.
    pub closed spec fn task_hosts(&self) -> Map<Seq<char>, Seq<char>> {
        self.tasks@
    }

    /// The sets and maps are well formed and the walk position can advance.
    pub closed spec fn wf(&self) -> bool {
        &&& self.busy.wf()
        &&& self.tasks.wf()
        &&& self.rr_idx < usize::MAX
    }

    /// A dispatcher with no busy host and no running task.
    pub fn new() -> (r: Dispatcher)
        ensures
            r.wf(),
            r.rr() == 0,
            r.busy_hosts() == Set::<Seq<char>>::empty(),
            r.task_hosts() == Map::<Seq<char>, Seq<char>>::empty(),
    {
        Dispatcher { rr_idx: 0, busy: StrSet::new(), tasks: StrMap::new() }
    }

    /// Whether `peer_id` runs a task.
    pub fn is_busy(&self, peer_id: &String) -> (r: bool)
        ensures
            r == self.busy_hosts().contains(peer_id@),
    {
        self.busy.contains(peer_id)
    }

    /// The host that runs `task_id`, if any.
    pub fn host_of(&self, task_id: &String) -> (r: Option<String>)
        requires
            self.wf(),
        ensures
            r is Some == self.task_hosts().contains_key(task_id@),
            r matches Some(p) ==> p@ == self.task_hosts()[task_id@],
    {
        self.tasks.get(task_id)
    }

    /// Decides what to do with the queued job `job` of `task_id`, given the
    /// hosts whose channels are open and the seconds the job has waited.
    ///
    /// Input for a running task goes to the host that runs it. A task that
    /// has waited `MAX_QUEUE_WAIT_SECS` is given up; with no open host it
    /// fails at once. Otherwise the walk over the open hosts in
    /// lexicographic order starts after the position where the last walk
    /// stopped; the first idle host gets the task and becomes busy with it.
    /// When all are busy the task waits.
    pub fn route(
        &mut self,
        task_id: &String,
        job: &String,
        open_peers: Vec<String>,
        waited_secs: u64,
    ) -> (r: Route)
        requires
            old(self).wf(),
        ensures
            final(self).wf(),
            is_stdin_job(job@) ==> {
                &&& r matches Route::Stdin { host }
                &&& opt_view(host) == input_host(*old(self), task_id@)
                &&& *final(self) == *old(self)
            },
            !is_stdin_job(job@) && waited_secs >= MAX_QUEUE_WAIT_SECS ==> {
                &&& r matches Route::TimedOut { reply }
                &&& reply@ == result_error_json(
                    "Swarm is fully saturated (Queue timeout)"@,
                    task_id@,
                )
                &&& *final(self) == *old(self)
            },
            !is_stdin_job(job@) && waited_secs < MAX_QUEUE_WAIT_SECS && open_peers.len() == 0 ==> {
                &&& r matches Route::NoNodes { reply }
                &&& reply@ == result_error_json("No active nodes in swarm"@, task_id@)
                &&& *final(self) == *old(self)
            },
            !is_stdin_job(job@) && waited_secs < MAX_QUEUE_WAIT_SECS && open_peers.len() > 0 ==> {
                let keys = walk_order(string_views(open_peers@));
                let n = keys.len() as int;
                &&& (r is Dispatched || r is Wait)
                &&& (r is Wait <==> walk_all_busy(keys, old(self).busy_hosts(), old(self).rr()))
                &&& r matches Route::Dispatched { peer_id } ==> dispatch_step(
                    *old(self),
                    *final(self),
                    keys,
                    task_id@,
                    peer_id@,
                )
                &&& r is Wait ==> {
                    &&& final(self).rr() == scan_pos(old(self).rr(), n, n)
                    &&& final(self).busy_hosts() == old(self).busy_hosts()
                    &&& final(self).task_hosts() == old(self).task_hosts()
                }
            },
    {
        if is_input_job(job.as_str()) {
            return Route::Stdin { host: self.tasks.get(task_id) };
        }
        if waited_secs >= MAX_QUEUE_WAIT_SECS {
            let reply = result_error_text("Swarm is fully saturated (Queue timeout)", task_id.as_str());
            return Route::TimedOut { reply };
        }
        if open_peers.len() == 0 {
            let reply = result_error_text("No active nodes in swarm", task_id.as_str());
            return Route::NoNodes { reply };
        }
        let ghost open_views = string_views(open_peers@);
        let keys = sort_strings(open_peers);
        assert(string_views(keys@).len() == open_views.len()) by {
            crate::order::lemma_lex_total_ordering();
            open_views.lemma_sort_by_ensures(lex_order());
            open_views.to_multiset_ensures();
            string_views(keys@).to_multiset_ensures();
        }
        let (selected, stop) = select_idle(&keys, &self.busy, self.rr_idx);
        self.rr_idx = stop;
        match selected {
            Some(i) => {
                let peer_id = keys[i].clone();
                self.busy.insert(keys[i].clone());
                self.tasks.insert(task_id.clone(), keys[i].clone());
                Route::Dispatched { peer_id }
            },
            None => Route::Wait,
        }
    }

    /// Sending the task to `peer_id` failed with `error`: the host is free
    /// again, the task is forgotten, and the returned `result` message
    /// reports the failure.
    pub fn send_failed(&mut self, task_id: &String, peer_id: &String, error: &str) -> (r: String)
        requires
            old(self).wf(),
        ensures
            final(self).wf(),
            release_step(*old(self), *final(self), peer_id@, Some(task_id@)),
            r@ == result_error_json("Send error: "@ + error@, task_id@),
    {
        self.busy.remove(peer_id);
        self.tasks.remove(task_id);
        let message = String::from_str("Send error: ").concat(error);
        result_error_text(message.as_str(), task_id.as_str())
    }

    /// A host sent a message, of type `msg_type` and about `task_id`. A
    /// `result` ends the task: the host is free again and the task is
    /// forgotten. Any other message changes nothing.
    pub fn host_message(
        &mut self,
        peer_id: &String,
        msg_type: &Option<String>,
        task_id: &Option<String>,
    )
        requires
            old(self).wf(),
        ensures
            final(self).wf(),
            opt_view(*msg_type) == Some("result"@) ==> release_step(
                *old(self),
                *final(self),
                peer_id@,
                opt_view(*task_id),
            ),
            opt_view(*msg_type) != Some("result"@) ==> *final(self) == *old(self),
    {
        if is_some_str(msg_type, "result") {
            self.busy.remove(peer_id);
            match task_id {
                Some(t) => self.tasks.remove(t),
                None => {},
            }
        }
    }

    /// A host sent `data` on its channel. When the data is a JSON message
    /// of type `result`, the task ends: the host is free again and the
    /// message's `task_id`, if it names one, is forgotten, as in
    /// `host_message`. Anything else changes nothing.
    pub fn host_data(&mut self, peer_id: &String, data: &[u8])
        requires
            old(self).wf(),
        ensures
            final(self).wf(),
            json_str_field(message_text(data@), "type"@) == Some("result"@) ==> release_step(
                *old(self),
                *final(self),
                peer_id@,
                json_str_field(message_text(data@), "task_id"@),
            ),
            json_str_field(message_text(data@), "type"@) != Some("result"@) ==> *final(self) == *old(
                self,
            ),
    {
        let text = message_text_of(data);
        let msg_type = str_field_of(text.as_str(), "type");
        let task_id = str_field_of(text.as_str(), "task_id");
        self.host_message(peer_id, &msg_type, &task_id);
    }
}

/// The message that a host sent as `data`, as the dashboard gets it: read
/// as UTF-8 text and, when it is JSON, written out again with its sender
/// `peer_id` set as `source_peer`; none when it is not JSON.
pub fn tag_host_message(peer_id: &str, data: &[u8]) -> (r: Option<String>)
    ensures
        opt_view(r) == json_with_member(message_text(data@), "source_peer"@, peer_id@),
{
    let text = message_text_of(data);
    with_member(text.as_str(), "source_peer", peer_id)
}

/// The status message that reports `task_id` as running on `peer_id`.
pub fn running_status_text(task_id: &str, peer_id: &str) -> (r: String)
    ensures
        r@ == status_json("Task "@ + task_id@ + " running on "@ + peer_id@),
{
    let message = String::from_str("Task ").concat(task_id).concat(" running on ").concat(peer_id);
    status_text(message.as_str())
}

}
