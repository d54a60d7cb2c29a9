//! Properties of the swarm that span several operations: how the router
//! balances tasks over its hosts, and whom the signaling server lists to
//! whom.
use vstd::prelude::*;
use crate::dispatch::dispatch_step;
use crate::dispatch::first_idle_at;
use crate::dispatch::input_host;
use crate::dispatch::release_step;
use crate::dispatch::Dispatcher;
use crate::dispatch::lemma_walk_all_busy_iff;
use crate::dispatch::scan_pos;
use crate::dispatch::walk_all_busy;
use crate::dispatch::walk_order;
use crate::ids::router_prefix;
use crate::order::lemma_lex_total_ordering;
use crate::order::lex_order;
use crate::signaling::listed_hosts;
use crate::signaling::register_json;
use crate::signaling::discover_hosts_json;
use crate::signaling::ice_candidate_json;
use crate::signaling::candidate_json;
use crate::signaling::json_opt_str;
use crate::signaling::json_opt_u16;
use crate::reading::lemma_null_reads_as;
use crate::messages::status_json;
use crate::messages::result_error_json;
use crate::messages::telemetry_json;
use crate::messages::task_json;
use crate::messages::stream_chunk_json;
use crate::json::decimal;
use crate::signaling::host_list_json;
use crate::signaling::session_description_json;
use crate::messages::completion_json;
use crate::json::json_array;
use crate::json::signed_decimal;
use crate::reading::reads_as;
use crate::reading::lemma_read_array;
use crate::reading::lemma_decimal_reads_as;
use crate::json::json_object;
use crate::json::json_quoted;
use crate::reading::is_plain;
use crate::reading::keyed;
use crate::reading::lemma_quoted_reads_as;
use crate::reading::lemma_read_object;
use crate::reading::read_value;
use crate::reading::JsonValue;
use crate::text::is_prefix;
use crate::router::new_hosts;
use crate::router::nonempty_names;

verus! {

proof fn lemma_walk_order_same_hosts(open: Seq<Seq<char>>)
    ensures
        walk_order(open).len() == open.len(),
        forall|p: Seq<char>| walk_order(open).contains(p) <==> open.contains(p),
{
    broadcast use vstd::seq_lib::group_to_multiset_ensures;

    lemma_lex_total_ordering();
    open.lemma_sort_by_ensures(lex_order());
    open.to_multiset_ensures();
    walk_order(open).to_multiset_ensures();
    assert forall|p: Seq<char>| walk_order(open).contains(p) <==> open.contains(p) by {
        assert(walk_order(open).contains(p) <==> walk_order(open).to_multiset().count(p) > 0);
        assert(open.contains(p) <==> open.to_multiset().count(p) > 0);
    }
}

/// A task goes only to a host whose channel is open and which runs no
/// other task.
pub proof fn law_task_goes_to_open_idle_host(
    open: Seq<Seq<char>>,
    busy: Set<Seq<char>>,
    rr: int,
    k: int,
)
    requires
        0 <= rr,
        first_idle_at(walk_order(open), busy, rr, k),
    ensures
        open.contains(walk_order(open)[scan_pos(rr, k, open.len() as int)]),
        !busy.contains(walk_order(open)[scan_pos(rr, k, open.len() as int)]),
{
    lemma_walk_order_same_hosts(open);
    let n = open.len() as int;
    vstd::arithmetic::div_mod::lemma_mod_bound(rr + k, n);
    assert(walk_order(open).contains(walk_order(open)[scan_pos(rr, k, n)]));
}

/// A task waits only while every host whose channel is open runs a task.
pub proof fn law_task_waits_only_when_all_hosts_busy(
    open: Seq<Seq<char>>,
    busy: Set<Seq<char>>,
    rr: int,
)
    requires
        0 <= rr,
        open.len() > 0,
    ensures
        walk_all_busy(walk_order(open), busy, rr) <==> forall|p: Seq<char>|
            #[trigger] open.contains(p) ==> busy.contains(p),
{
    let keys = walk_order(open);
    lemma_walk_order_same_hosts(open);
    lemma_walk_all_busy_iff(keys, busy, rr);
    if walk_all_busy(keys, busy, rr) {
        assert forall|p: Seq<char>| #[trigger] open.contains(p) implies busy.contains(p) by {
            assert(keys.contains(p));
            let i = choose|i: int| 0 <= i < keys.len() && keys[i] == p;
            assert(busy.contains(keys[i]));
        }
    }
    if forall|p: Seq<char>| #[trigger] open.contains(p) ==> busy.contains(p) {
        assert forall|i: int| 0 <= i < keys.len() implies busy.contains(#[trigger] keys[i]) by {
            assert(keys.contains(keys[i]));
            assert(open.contains(keys[i]));
        }
    }
}

/// When the host next in turn is idle, it gets the task.
pub proof fn law_idle_host_next_in_turn_is_chosen(
    keys: Seq<Seq<char>>,
    busy: Set<Seq<char>>,
    rr: int,
)
    requires
        keys.len() > 0,
        !busy.contains(keys[scan_pos(rr, 1, keys.len() as int)]),
    ensures
        forall|k: int| #[trigger] first_idle_at(keys, busy, rr, k) <==> k == 1,
{
}

/// Turn by turn, the walk visits each of `n` hosts once before it comes
/// back to the first: the positions of steps `1` to `n` differ, and the
/// turn after step `j` is step `j + 1`.
pub proof fn law_turns_visit_each_host_once(rr: int, n: int)
    requires
        0 <= rr,
        n > 0,
    ensures
        forall|a: int, b: int|
            1 <= a <= n && 1 <= b <= n && a != b ==> #[trigger] scan_pos(rr, a, n) != #[trigger] scan_pos(
                rr,
                b,
                n,
            ),
        forall|j: int| 0 <= j ==> #[trigger] scan_pos(scan_pos(rr, j, n), 1, n) == scan_pos(rr, j + 1, n),
{
    assert forall|a: int, b: int|
        1 <= a <= n && 1 <= b <= n && a != b implies #[trigger] scan_pos(rr, a, n) != #[trigger] scan_pos(
        rr,
        b,
        n,
    ) by {
        if scan_pos(rr, a, n) == scan_pos(rr, b, n) {
            let lo = if a < b { a } else { b };
            let hi = if a < b { b } else { a };
            vstd::arithmetic::div_mod::lemma_fundamental_div_mod(rr + lo, n);
            vstd::arithmetic::div_mod::lemma_fundamental_div_mod(rr + hi, n);
            let q1 = (rr + lo) / n;
            let q2 = (rr + hi) / n;
            assert(hi - lo == n * (q2 - q1)) by (nonlinear_arith)
                requires
                    rr + lo == n * q1 + (rr + lo) % n,
                    rr + hi == n * q2 + (rr + hi) % n,
                    (rr + lo) % n == (rr + hi) % n,
            ;
            assert(false) by (nonlinear_arith)
                requires
                    hi - lo == n * (q2 - q1),
                    0 < hi - lo < n,
                    n > 0,
            ;
        }
    }
    assert forall|j: int| 0 <= j implies #[trigger] scan_pos(scan_pos(rr, j, n), 1, n) == scan_pos(
        rr,
        j + 1,
        n,
    ) by {
        vstd::arithmetic::div_mod::lemma_add_mod_noop_right(1, rr + j, n);
    }
}

/// When sending a task fails, the busy hosts and the running tasks are as
/// they were before the task was dispatched, provided the task was not
/// already running: `send_failed` undoes what `route` did.
pub proof fn law_failed_send_undoes_dispatch(
    before: Dispatcher,
    dispatched: Dispatcher,
    after: Dispatcher,
    keys: Seq<Seq<char>>,
    task_id: Seq<char>,
    peer_id: Seq<char>,
)
    requires
        !before.task_hosts().contains_key(task_id),
        dispatch_step(before, dispatched, keys, task_id, peer_id),
        release_step(dispatched, after, peer_id, Some(task_id)),
    ensures
        after.busy_hosts() == before.busy_hosts(),
        after.task_hosts() == before.task_hosts(),
        after.rr() == dispatched.rr(),
{
    let k = choose|k: int| #[trigger]
        first_idle_at(keys, before.busy_hosts(), before.rr(), k) && {
            &&& peer_id == keys[scan_pos(before.rr(), k, keys.len() as int)]
            &&& dispatched.rr() == scan_pos(before.rr(), k, keys.len() as int)
            &&& dispatched.busy_hosts() == before.busy_hosts().insert(peer_id)
            &&& dispatched.task_hosts() == before.task_hosts().insert(task_id, peer_id)
        };
    assert(!before.busy_hosts().contains(peer_id));
    assert(before.busy_hosts().insert(peer_id).remove(peer_id) =~= before.busy_hosts());
    assert(before.task_hosts().insert(task_id, peer_id).remove(task_id) =~= before.task_hosts());
}

/// Input for a dispatched task reaches the host that got the task, until
/// the task's result arrives; after the result the host is idle and the
/// task's input reaches no host.
pub proof fn law_input_follows_task_until_result(
    before: Dispatcher,
    running: Dispatcher,
    after: Dispatcher,
    keys: Seq<Seq<char>>,
    task_id: Seq<char>,
    peer_id: Seq<char>,
)
    requires
        dispatch_step(before, running, keys, task_id, peer_id),
        release_step(running, after, peer_id, Some(task_id)),
    ensures
        input_host(running, task_id) == Some(peer_id),
        running.busy_hosts().contains(peer_id),
        input_host(after, task_id) is None,
        !after.busy_hosts().contains(peer_id),
{
}

/// The busy hosts are exactly the hosts that run a task, and no host runs
/// two tasks.
pub open spec fn busy_hosts_run_one_task_each(
    busy: Set<Seq<char>>,
    tasks: Map<Seq<char>, Seq<char>>,
) -> bool {
    &&& forall|h: Seq<char>|
        #[trigger] busy.contains(h) <==> exists|t: Seq<char>| tasks.contains_key(t) && #[trigger] tasks[t]
            == h
    &&& forall|t1: Seq<char>, t2: Seq<char>|
        tasks.contains_key(t1) && tasks.contains_key(t2) && t1 != t2 ==> #[trigger] tasks[t1]
            != #[trigger] tasks[t2]
}

/// Every busy host of the dispatcher `d` runs exactly one task, and every
/// host that runs a task is busy.
pub open spec fn one_task_per_busy_host(d: Dispatcher) -> bool {
    busy_hosts_run_one_task_each(d.busy_hosts(), d.task_hosts())
}

/// A fresh dispatcher has no busy host and no task, so each busy host runs
/// one task.
pub proof fn law_new_dispatcher_has_one_task_per_busy_host(d: Dispatcher)
    requires
        d.busy_hosts() == Set::<Seq<char>>::empty(),
        d.task_hosts() == Map::<Seq<char>, Seq<char>>::empty(),
    ensures
        one_task_per_busy_host(d),
{
}

proof fn lemma_insert_keeps_one_task_each(
    busy: Set<Seq<char>>,
    tasks: Map<Seq<char>, Seq<char>>,
    task_id: Seq<char>,
    peer_id: Seq<char>,
)
    requires
        busy_hosts_run_one_task_each(busy, tasks),
        !busy.contains(peer_id),
        !tasks.contains_key(task_id),
    ensures
        busy_hosts_run_one_task_each(busy.insert(peer_id), tasks.insert(task_id, peer_id)),
{
    let b2 = busy.insert(peer_id);
    let t2 = tasks.insert(task_id, peer_id);
    assert forall|h: Seq<char>| #[trigger] b2.contains(h) <==> exists|t: Seq<char>|
        t2.contains_key(t) && #[trigger] t2[t] == h by {
        if b2.contains(h) {
            if h == peer_id {
                assert(t2.contains_key(task_id) && t2[task_id] == h);
            } else {
                assert(busy.contains(h));
                let t = choose|t: Seq<char>| tasks.contains_key(t) && #[trigger] tasks[t] == h;
                assert(t2.contains_key(t) && t2[t] == h);
            }
        }
        if exists|t: Seq<char>| t2.contains_key(t) && #[trigger] t2[t] == h {
            let t = choose|t: Seq<char>| t2.contains_key(t) && #[trigger] t2[t] == h;
            if t != task_id {
                assert(tasks.contains_key(t) && tasks[t] == h);
            }
        }
    }
    assert forall|a: Seq<char>, b: Seq<char>|
        t2.contains_key(a) && t2.contains_key(b) && a != b implies #[trigger] t2[a] != #[trigger] t2[b] by {
        if a == task_id {
            assert(tasks.contains_key(b) && tasks[b] == t2[b]);
            if t2[b] == peer_id {
                assert(busy.contains(peer_id));
            }
        } else if b == task_id {
            assert(tasks.contains_key(a) && tasks[a] == t2[a]);
            if t2[a] == peer_id {
                assert(busy.contains(peer_id));
            }
        } else {
            assert(tasks[a] != tasks[b]);
        }
    }
}

proof fn lemma_remove_keeps_one_task_each(
    busy: Set<Seq<char>>,
    tasks: Map<Seq<char>, Seq<char>>,
    task_id: Seq<char>,
    peer_id: Seq<char>,
)
    requires
        busy_hosts_run_one_task_each(busy, tasks),
        tasks.contains_key(task_id),
        tasks[task_id] == peer_id,
    ensures
        busy_hosts_run_one_task_each(busy.remove(peer_id), tasks.remove(task_id)),
{
    let b2 = busy.remove(peer_id);
    let t2 = tasks.remove(task_id);
    assert forall|h: Seq<char>| #[trigger] b2.contains(h) <==> exists|t: Seq<char>|
        t2.contains_key(t) && #[trigger] t2[t] == h by {
        if b2.contains(h) {
            assert(busy.contains(h));
            let t = choose|t: Seq<char>| tasks.contains_key(t) && #[trigger] tasks[t] == h;
            assert(t != task_id);
            assert(t2.contains_key(t) && t2[t] == h);
        }
        if exists|t: Seq<char>| t2.contains_key(t) && #[trigger] t2[t] == h {
            let t = choose|t: Seq<char>| t2.contains_key(t) && #[trigger] t2[t] == h;
            assert(tasks.contains_key(t) && tasks[t] == h);
            assert(tasks[t] != tasks[task_id]);
            assert(busy.contains(h));
        }
    }
    assert forall|a: Seq<char>, b: Seq<char>|
        t2.contains_key(a) && t2.contains_key(b) && a != b implies #[trigger] t2[a] != #[trigger] t2[b] by {
        assert(tasks[a] != tasks[b]);
    }
}

/// Dispatching a new task to an idle host keeps every busy host running
/// exactly one task.
pub proof fn law_dispatch_keeps_one_task_per_busy_host(
    before: Dispatcher,
    after: Dispatcher,
    keys: Seq<Seq<char>>,
    task_id: Seq<char>,
    peer_id: Seq<char>,
)
    requires
        one_task_per_busy_host(before),
        !before.task_hosts().contains_key(task_id),
        dispatch_step(before, after, keys, task_id, peer_id),
    ensures
        one_task_per_busy_host(after),
{
    let k = choose|k: int| #[trigger]
        first_idle_at(keys, before.busy_hosts(), before.rr(), k) && {
            &&& peer_id == keys[scan_pos(before.rr(), k, keys.len() as int)]
            &&& after.rr() == scan_pos(before.rr(), k, keys.len() as int)
            &&& after.busy_hosts() == before.busy_hosts().insert(peer_id)
            &&& after.task_hosts() == before.task_hosts().insert(task_id, peer_id)
        };
    lemma_insert_keeps_one_task_each(before.busy_hosts(), before.task_hosts(), task_id, peer_id);
}

/// A host's result for the task it runs frees the host and keeps every
/// busy host running exactly one task.
pub proof fn law_result_keeps_one_task_per_busy_host(
    before: Dispatcher,
    after: Dispatcher,
    task_id: Seq<char>,
    peer_id: Seq<char>,
)
    requires
        one_task_per_busy_host(before),
        input_host(before, task_id) == Some(peer_id),
        release_step(before, after, peer_id, Some(task_id)),
    ensures
        one_task_per_busy_host(after),
{
    lemma_remove_keeps_one_task_each(before.busy_hosts(), before.task_hosts(), task_id, peer_id);
}

/// No router is ever listed as a host: every peer id that starts with
/// `core_` stays out of every host list.
pub proof fn law_routers_never_listed(
    registry: Map<Seq<char>, Seq<char>>,
    source: Seq<char>,
    cluster: Seq<char>,
    peer_id: Seq<char>,
)
    requires
        is_prefix(router_prefix(), peer_id),
    ensures
        !listed_hosts(registry, source, cluster).contains(peer_id),
{
}

/// A peer is never offered itself as a host, and only hosts of its own
/// cluster are offered.
pub proof fn law_hosts_are_other_peers_of_the_cluster(
    registry: Map<Seq<char>, Seq<char>>,
    source: Seq<char>,
    cluster: Seq<char>,
    peer_id: Seq<char>,
)
    requires
        listed_hosts(registry, source, cluster).contains(peer_id),
    ensures
        peer_id != source,
        registry.contains_key(peer_id),
        registry[peer_id] == cluster,
{
}

/// Once a non-router peer registers in a cluster, every other peer of that
/// cluster is offered it as a host.
pub proof fn law_registered_host_is_listed(
    registry: Map<Seq<char>, Seq<char>>,
    peer_id: Seq<char>,
    cluster: Seq<char>,
    source: Seq<char>,
)
    requires
        peer_id != source,
        !is_prefix(router_prefix(), peer_id),
    ensures
        listed_hosts(registry.insert(peer_id, cluster), source, cluster).contains(peer_id),
{
}

/// Once a peer's connection closes, it is offered to no one.
pub proof fn law_closed_peer_is_not_listed(
    registry: Map<Seq<char>, Seq<char>>,
    peer_id: Seq<char>,
    cluster: Seq<char>,
    source: Seq<char>,
)
    ensures
        !listed_hosts(registry.remove(peer_id), source, cluster).contains(peer_id),
{
}

/// What the router knows after host lists naming `lists`, in turn, when
/// it started out knowing `seen`.
pub open spec fn seen_after(lists: Seq<Seq<Seq<char>>>, seen: Set<Seq<char>>) -> Set<Seq<char>>
    decreases lists.len(),
{
    if lists.len() == 0 {
        seen
    } else {
        seen_after(lists.drop_last(), seen).union(nonempty_names(lists.last()))
    }
}

/// The hosts that the router connects to over host lists naming `lists`,
/// in turn, when it started out knowing `seen`.
pub open spec fn connections(lists: Seq<Seq<Seq<char>>>, seen: Set<Seq<char>>) -> Seq<Seq<char>>
    decreases lists.len(),
{
    if lists.len() == 0 {
        seq![]
    } else {
        connections(lists.drop_last(), seen) + new_hosts(
            lists.last(),
            seen_after(lists.drop_last(), seen),
        )
    }
}

/// `x` is named in one of `lists`.
pub open spec fn listed_somewhere(lists: Seq<Seq<Seq<char>>>, x: Seq<char>) -> bool {
    exists|i: int| 0 <= i < lists.len() && #[trigger] lists[i].contains(x)
}

/// The new hosts of one host list occur once each, and are exactly its
/// non-empty names not yet known.
pub proof fn lemma_new_hosts(names: Seq<Seq<char>>, seen: Set<Seq<char>>)
    ensures
        new_hosts(names, seen).no_duplicates(),
        forall|x: Seq<char>|
            #![trigger new_hosts(names, seen).contains(x)]
            #![trigger names.contains(x)]
            new_hosts(names, seen).contains(x) <==> (x.len() > 0 && !seen.contains(x)
                && names.contains(x)),
    decreases names.len(),
{
    if names.len() > 0 {
        let init = names.drop_last();
        lemma_new_hosts(init, seen);
        let prev = new_hosts(init, seen);
        let x = names.last();
        assert forall|y: Seq<char>| #[trigger] names.contains(y) <==> (init.contains(y) || y == x) by {
            if names.contains(y) {
                let k = choose|k: int| 0 <= k < names.len() && names[k] == y;
                if k < names.len() - 1 {
                    assert(init[k] == y);
                }
            }
            if init.contains(y) {
                let k = choose|k: int| 0 <= k < init.len() && init[k] == y;
                assert(names[k] == y);
            }
            if y == x {
                assert(names[names.len() - 1] == y);
            }
        }
        if x.len() > 0 && !seen.contains(x) && !prev.contains(x) {
            let cur = prev.push(x);
            assert(new_hosts(names, seen) == cur);
            assert forall|a: int, b: int| 0 <= a < cur.len() && 0 <= b < cur.len() && a != b implies cur[a]
                != cur[b] by {
                if a == prev.len() {
                    assert(prev.contains(cur[b]));
                } else if b == prev.len() {
                    assert(prev.contains(cur[a]));
                }
            }
            assert forall|y: Seq<char>| cur.contains(y) <==> prev.contains(y) || y == x by {
                if cur.contains(y) {
                    let k = choose|k: int| 0 <= k < cur.len() && cur[k] == y;
                    if k < prev.len() {
                        assert(prev[k] == y);
                    }
                }
                if prev.contains(y) {
                    let k = choose|k: int| 0 <= k < prev.len() && prev[k] == y;
                    assert(cur[k] == y);
                }
                if y == x {
                    assert(cur[prev.len() as int] == y);
                }
            }
            assert forall|y: Seq<char>|
                #![trigger cur.contains(y)]
                #![trigger names.contains(y)]
                cur.contains(y) <==> (y.len() > 0 && !seen.contains(y) && names.contains(y)) by {
                assert(init.contains(y) ==> (prev.contains(y) <==> (y.len() > 0 && !seen.contains(y))));
            }
        } else {
            assert(new_hosts(names, seen) == prev);
            assert forall|y: Seq<char>|
                #![trigger prev.contains(y)]
                #![trigger names.contains(y)]
                prev.contains(y) <==> (y.len() > 0 && !seen.contains(y) && names.contains(y)) by {
                assert(init.contains(y) ==> (prev.contains(y) <==> (y.len() > 0 && !seen.contains(y))));
            }
        }
    } else {
        assert forall|y: Seq<char>|
            #![trigger new_hosts(names, seen).contains(y)]
            #![trigger names.contains(y)]
            new_hosts(names, seen).contains(y) <==> (y.len() > 0 && !seen.contains(y)
                && names.contains(y)) by {
            assert(!names.contains(y));
            assert(new_hosts(names, seen) =~= Seq::<Seq<char>>::empty());
        }
    }
}

/// Over any run of host lists, the router opens one connection to each
/// non-empty host id that some list names and that it did not know at the
/// start, and no connection to any other id: no host gets two, however
/// often it is listed.
pub proof fn law_each_listed_host_connected_once(
    lists: Seq<Seq<Seq<char>>>,
    seen: Set<Seq<char>>,
)
    ensures
        connections(lists, seen).no_duplicates(),
        forall|x: Seq<char>|
            #[trigger] connections(lists, seen).contains(x) <==> (x.len() > 0 && !seen.contains(x)
                && listed_somewhere(lists, x)),
        forall|x: Seq<char>|
            #[trigger] seen_after(lists, seen).contains(x) <==> (seen.contains(x) || (x.len() > 0
                && listed_somewhere(lists, x))),
    decreases lists.len(),
{
    if lists.len() > 0 {
        let init = lists.drop_last();
        let last = lists.last();
        law_each_listed_host_connected_once(init, seen);
        let s = seen_after(init, seen);
        lemma_new_hosts(last, s);
        let c0 = connections(init, seen);
        let n = new_hosts(last, s);
        let c = connections(lists, seen);
        assert(c == c0 + n);
        assert forall|y: Seq<char>| #[trigger] listed_somewhere(lists, y) <==> (listed_somewhere(init, y)
            || last.contains(y)) by {
            if listed_somewhere(lists, y) {
                let i = choose|i: int| 0 <= i < lists.len() && #[trigger] lists[i].contains(y);
                if i < lists.len() - 1 {
                    assert(init[i].contains(y));
                }
            }
            if listed_somewhere(init, y) {
                let i = choose|i: int| 0 <= i < init.len() && #[trigger] init[i].contains(y);
                assert(lists[i].contains(y));
            }
            if last.contains(y) {
                assert(lists[lists.len() - 1].contains(y));
            }
        }
        assert forall|a: int, b: int| 0 <= a < c.len() && 0 <= b < c.len() && a != b implies c[a]
            != c[b] by {
            if a < c0.len() {
                assert(c[a] == c0[a]);
            } else {
                assert(c[a] == n[a - c0.len()]);
            }
            if b < c0.len() {
                assert(c[b] == c0[b]);
            } else {
                assert(c[b] == n[b - c0.len()]);
            }
            if a < c0.len() && b >= c0.len() {
                assert(c0.contains(c[a]));
                assert(n.contains(c[b]));
                assert(s.contains(c[a]));
            } else if b < c0.len() && a >= c0.len() {
                assert(c0.contains(c[b]));
                assert(n.contains(c[a]));
                assert(s.contains(c[b]));
            } else if a >= c0.len() {
                assert(n[a - c0.len()] != n[b - c0.len()]);
            }
        }
        assert forall|x: Seq<char>| #[trigger] c.contains(x) <==> (x.len() > 0 && !seen.contains(x)
            && listed_somewhere(lists, x)) by {
            if c.contains(x) {
                let k = choose|k: int| 0 <= k < c.len() && c[k] == x;
                if k < c0.len() {
                    assert(c0[k] == x);
                    assert(c0.contains(x));
                } else {
                    assert(n[k - c0.len()] == x);
                    assert(n.contains(x));
                }
            }
            if x.len() > 0 && !seen.contains(x) && listed_somewhere(lists, x) {
                if listed_somewhere(init, x) {
                    assert(c0.contains(x));
                    let k = choose|k: int| 0 <= k < c0.len() && c0[k] == x;
                    assert(c[k] == x);
                } else {
                    assert(last.contains(x));
                    assert(!s.contains(x));
                    assert(n.contains(x));
                    let k = choose|k: int| 0 <= k < n.len() && n[k] == x;
                    assert(c[c0.len() + k] == x);
                }
            }
        }
        assert forall|x: Seq<char>| #[trigger] seen_after(lists, seen).contains(x) <==> (seen.contains(x)
            || (x.len() > 0 && listed_somewhere(lists, x))) by {
            assert(seen_after(lists, seen) == s.union(nonempty_names(last)));
            assert(listed_somewhere(lists, x) <==> (listed_somewhere(init, x) || last.contains(x)));
            assert(s.contains(x) <==> (seen.contains(x) || (x.len() > 0 && listed_somewhere(init, x))));
        }
    }
}

proof fn lemma_plain_keys()
    ensures
        is_plain("cluster_key"@),
        is_plain("peer_id"@),
        is_plain("type"@),
{
    reveal_strlit("cluster_key");
    reveal_strlit("peer_id");
    reveal_strlit("type");
}

/// Whoever reads a `register` message gets back exactly the peer id and
/// the cluster key it was built from, whatever their length or content.
#[verifier::spinoff_prover]
pub proof fn law_register_reads_back(peer_id: Seq<char>, cluster_key: Seq<char>)
    ensures
        read_value(register_json(peer_id, cluster_key)) == Some(
            (
                JsonValue::Obj(
                    seq![
                        ("cluster_key"@, JsonValue::Str(cluster_key)),
                        ("peer_id"@, JsonValue::Str(peer_id)),
                        ("type"@, JsonValue::Str("register"@)),
                    ],
                ),
                Seq::<char>::empty(),
            ),
        ),
{
    lemma_plain_keys();
    let fields = seq![
        ("cluster_key"@, json_quoted(cluster_key)),
        ("peer_id"@, json_quoted(peer_id)),
        ("type"@, json_quoted("register"@)),
    ];
    let vals = seq![
        JsonValue::Str(cluster_key),
        JsonValue::Str(peer_id),
        JsonValue::Str("register"@),
    ];
    lemma_quoted_reads_as(cluster_key);
    lemma_quoted_reads_as(peer_id);
    lemma_quoted_reads_as("register"@);
    lemma_read_object(fields, vals, Seq::empty());
    assert(json_object(fields) + Seq::<char>::empty() =~= register_json(peer_id, cluster_key));
    assert(keyed(fields, vals) =~= seq![
        ("cluster_key"@, JsonValue::Str(cluster_key)),
        ("peer_id"@, JsonValue::Str(peer_id)),
        ("type"@, JsonValue::Str("register"@)),
    ]);
}

/// The entry of one host in a host list, as read back.
pub open spec fn host_entry_value(h: Seq<char>) -> JsonValue {
    JsonValue::Obj(seq![("peer_id"@, JsonValue::Str(h))])
}

/// Whoever reads a `host_list` reply gets an array under `hosts` with one
/// `{peer_id}` object per listed host, in order, for every number of hosts.
#[verifier::spinoff_prover]
pub proof fn law_host_list_reads_back(hosts: Seq<Seq<char>>)
    ensures
        read_value(host_list_json(hosts)) == Some(
            (
                JsonValue::Obj(
                    seq![
                        ("hosts"@, JsonValue::Arr(hosts.map_values(|h: Seq<char>| host_entry_value(h)))),
                        ("type"@, JsonValue::Str("host_list"@)),
                    ],
                ),
                Seq::<char>::empty(),
            ),
        ),
{
    lemma_plain_keys();
    reveal_strlit("hosts");
    assert(is_plain("hosts"@));
    let items = hosts.map_values(
        |h: Seq<char>| json_object(seq![("peer_id"@, json_quoted(h))]),
    );
    let entries = hosts.map_values(|h: Seq<char>| host_entry_value(h));
    assert forall|i: int| 0 <= i < items.len() implies reads_as(#[trigger] items[i], entries[i]) by {
        let h = hosts[i];
        let f = seq![("peer_id"@, json_quoted(h))];
        let v = seq![JsonValue::Str(h)];
        lemma_quoted_reads_as(h);
        lemma_read_object(f, v, Seq::empty());
        assert(keyed(f, v) =~= seq![("peer_id"@, JsonValue::Str(h))]);
    }
    lemma_read_array(items, entries, Seq::empty());
    let fields = seq![("hosts"@, json_array(items)), ("type"@, json_quoted("host_list"@))];
    let vals = seq![JsonValue::Arr(entries), JsonValue::Str("host_list"@)];
    lemma_quoted_reads_as("host_list"@);
    lemma_read_object(fields, vals, Seq::empty());
    assert(json_object(fields) + Seq::<char>::empty() =~= host_list_json(hosts));
    assert(keyed(fields, vals) =~= seq![
        ("hosts"@, JsonValue::Arr(entries)),
        ("type"@, JsonValue::Str("host_list"@)),
    ]);
}

/// Whoever reads a task's `result` message gets back the task id and the
/// exit code it was built from, for every exit code.
#[verifier::spinoff_prover]
pub proof fn law_completion_reads_back(task_id: Seq<char>, exit_code: int)
    ensures
        read_value(completion_json(task_id, exit_code)) == Some(
            (
                JsonValue::Obj(
                    seq![
                        ("data"@, JsonValue::Str("\r\n[Process completed]\r\n"@)),
                        ("exit_code"@, JsonValue::Num(exit_code)),
                        ("task_id"@, JsonValue::Str(task_id)),
                        ("type"@, JsonValue::Str("result"@)),
                    ],
                ),
                Seq::<char>::empty(),
            ),
        ),
{
    lemma_plain_keys();
    reveal_strlit("data");
    reveal_strlit("exit_code");
    reveal_strlit("task_id");
    assert(is_plain("data"@));
    assert(is_plain("exit_code"@));
    assert(is_plain("task_id"@));
    let done = "\r\n[Process completed]\r\n"@;
    let fields = seq![
        ("data"@, json_quoted(done)),
        ("exit_code"@, signed_decimal(exit_code)),
        ("task_id"@, json_quoted(task_id)),
        ("type"@, json_quoted("result"@)),
    ];
    let vals = seq![
        JsonValue::Str(done),
        JsonValue::Num(exit_code),
        JsonValue::Str(task_id),
        JsonValue::Str("result"@),
    ];
    lemma_quoted_reads_as(done);
    lemma_decimal_reads_as(exit_code);
    lemma_quoted_reads_as(task_id);
    lemma_quoted_reads_as("result"@);
    lemma_read_object(fields, vals, Seq::empty());
    assert(json_object(fields) + Seq::<char>::empty() =~= completion_json(task_id, exit_code));
    assert(keyed(fields, vals) =~= seq![
        ("data"@, JsonValue::Str(done)),
        ("exit_code"@, JsonValue::Num(exit_code)),
        ("task_id"@, JsonValue::Str(task_id)),
        ("type"@, JsonValue::Str("result"@)),
    ]);
}

proof fn lemma_description_reads_as(kind: Seq<char>, sdp: Seq<char>)
    ensures
        is_plain("sdp"@),
        reads_as(
            json_object(seq![("sdp"@, json_quoted(sdp)), ("type"@, json_quoted(kind))]),
            JsonValue::Obj(seq![("sdp"@, JsonValue::Str(sdp)), ("type"@, JsonValue::Str(kind))]),
        ),
{
    lemma_plain_keys();
    reveal_strlit("sdp");
    assert(is_plain("sdp"@));
    let inner = seq![("sdp"@, json_quoted(sdp)), ("type"@, json_quoted(kind))];
    let inner_vals = seq![JsonValue::Str(sdp), JsonValue::Str(kind)];
    lemma_quoted_reads_as(sdp);
    lemma_quoted_reads_as(kind);
    lemma_read_object(inner, inner_vals, Seq::empty());
    assert(keyed(inner, inner_vals) =~= seq![("sdp"@, JsonValue::Str(sdp)), ("type"@, JsonValue::Str(kind))]);
}

/// Whoever reads an offer or an answer gets back its kind, its sender, its
/// target and the whole session description, verbatim, whatever its
/// length.
#[verifier::spinoff_prover]
pub proof fn law_session_description_reads_back(
    kind: Seq<char>,
    source: Seq<char>,
    target: Seq<char>,
    sdp: Seq<char>,
)
    ensures
        read_value(session_description_json(kind, source, target, sdp)) == Some(
            (
                JsonValue::Obj(
                    seq![
                        (
                            "sdp"@,
                            JsonValue::Obj(
                                seq![("sdp"@, JsonValue::Str(sdp)), ("type"@, JsonValue::Str(kind))],
                            ),
                        ),
                        ("source_peer_id"@, JsonValue::Str(source)),
                        ("target_peer_id"@, JsonValue::Str(target)),
                        ("type"@, JsonValue::Str(kind)),
                    ],
                ),
                Seq::<char>::empty(),
            ),
        ),
{
    lemma_plain_keys();
    reveal_strlit("source_peer_id");
    reveal_strlit("target_peer_id");
    assert(is_plain("source_peer_id"@));
    assert(is_plain("target_peer_id"@));
    lemma_description_reads_as(kind, sdp);
    let inner = seq![("sdp"@, json_quoted(sdp)), ("type"@, json_quoted(kind))];
    let description = JsonValue::Obj(
        seq![("sdp"@, JsonValue::Str(sdp)), ("type"@, JsonValue::Str(kind))],
    );
    lemma_quoted_reads_as(kind);
    lemma_quoted_reads_as(source);
    lemma_quoted_reads_as(target);
    let fields = seq![
        ("sdp"@, json_object(inner)),
        ("source_peer_id"@, json_quoted(source)),
        ("target_peer_id"@, json_quoted(target)),
        ("type"@, json_quoted(kind)),
    ];
    let vals = seq![
        description,
        JsonValue::Str(source),
        JsonValue::Str(target),
        JsonValue::Str(kind),
    ];
    lemma_read_object(fields, vals, Seq::empty());
    assert(json_object(fields) + Seq::<char>::empty() =~= session_description_json(
        kind,
        source,
        target,
        sdp,
    ));
    assert(keyed(fields, vals) =~= seq![
        ("sdp"@, description),
        ("source_peer_id"@, JsonValue::Str(source)),
        ("target_peer_id"@, JsonValue::Str(target)),
        ("type"@, JsonValue::Str(kind)),
    ]);
}

/// Whoever reads a `discover_hosts` message gets back the peer id it was
/// built from.
#[verifier::spinoff_prover]
pub proof fn law_discover_hosts_reads_back(peer_id: Seq<char>)
    ensures
        read_value(discover_hosts_json(peer_id)) == Some(
            (
                JsonValue::Obj(
                    seq![
                        ("peer_id"@, JsonValue::Str(peer_id)),
                        ("type"@, JsonValue::Str("discover_hosts"@)),
                    ],
                ),
                Seq::<char>::empty(),
            ),
        ),
{
    reveal_strlit("peer_id");
    assert(is_plain("peer_id"@));
    reveal_strlit("type");
    assert(is_plain("type"@));
    let fields = seq![
        ("peer_id"@, json_quoted(peer_id)),
        ("type"@, json_quoted("discover_hosts"@)),
    ];
    let vals = seq![
        JsonValue::Str(peer_id),
        JsonValue::Str("discover_hosts"@),
    ];
    lemma_quoted_reads_as(peer_id);
    lemma_quoted_reads_as("discover_hosts"@);
    lemma_read_object(fields, vals, Seq::empty());
    assert(json_object(fields) + Seq::<char>::empty() =~= discover_hosts_json(peer_id));
    assert(keyed(fields, vals) =~= seq![
        ("peer_id"@, JsonValue::Str(peer_id)),
        ("type"@, JsonValue::Str("discover_hosts"@)),
    ]);
}

/// Whoever reads a `status` message gets back the text it was built from.
#[verifier::spinoff_prover]
pub proof fn law_status_reads_back(message: Seq<char>)
    ensures
        read_value(status_json(message)) == Some(
            (
                JsonValue::Obj(
                    seq![
                        ("message"@, JsonValue::Str(message)),
                        ("type"@, JsonValue::Str("status"@)),
                    ],
                ),
                Seq::<char>::empty(),
            ),
        ),
{
    reveal_strlit("message");
    assert(is_plain("message"@));
    reveal_strlit("type");
    assert(is_plain("type"@));
    let fields = seq![
        ("message"@, json_quoted(message)),
        ("type"@, json_quoted("status"@)),
    ];
    let vals = seq![
        JsonValue::Str(message),
        JsonValue::Str("status"@),
    ];
    lemma_quoted_reads_as(message);
    lemma_quoted_reads_as("status"@);
    lemma_read_object(fields, vals, Seq::empty());
    assert(json_object(fields) + Seq::<char>::empty() =~= status_json(message));
    assert(keyed(fields, vals) =~= seq![
        ("message"@, JsonValue::Str(message)),
        ("type"@, JsonValue::Str("status"@)),
    ]);
}

/// Whoever reads a failed task's `result` message gets back the error and
/// the task id it was built from.
#[verifier::spinoff_prover]
pub proof fn law_result_error_reads_back(error: Seq<char>, task_id: Seq<char>)
    ensures
        read_value(result_error_json(error, task_id)) == Some(
            (
                JsonValue::Obj(
                    seq![
                        ("error"@, JsonValue::Str(error)),
                        ("task_id"@, JsonValue::Str(task_id)),
                        ("type"@, JsonValue::Str("result"@)),
                    ],
                ),
                Seq::<char>::empty(),
            ),
        ),
{
    reveal_strlit("error");
    assert(is_plain("error"@));
    reveal_strlit("task_id");
    assert(is_plain("task_id"@));
    reveal_strlit("type");
    assert(is_plain("type"@));
    let fields = seq![
        ("error"@, json_quoted(error)),
        ("task_id"@, json_quoted(task_id)),
        ("type"@, json_quoted("result"@)),
    ];
    let vals = seq![
        JsonValue::Str(error),
        JsonValue::Str(task_id),
        JsonValue::Str("result"@),
    ];
    lemma_quoted_reads_as(error);
    lemma_quoted_reads_as(task_id);
    lemma_quoted_reads_as("result"@);
    lemma_read_object(fields, vals, Seq::empty());
    assert(json_object(fields) + Seq::<char>::empty() =~= result_error_json(error, task_id));
    assert(keyed(fields, vals) =~= seq![
        ("error"@, JsonValue::Str(error)),
        ("task_id"@, JsonValue::Str(task_id)),
        ("type"@, JsonValue::Str("result"@)),
    ]);
}

/// Whoever reads a `telemetry` message gets back the number of open host
/// channels it was built from.
#[verifier::spinoff_prover]
pub proof fn law_telemetry_reads_back(active_nodes: nat)
    ensures
        read_value(telemetry_json(active_nodes)) == Some(
            (
                JsonValue::Obj(
                    seq![
                        ("active_nodes"@, JsonValue::Num(active_nodes as int)),
                        ("type"@, JsonValue::Str("telemetry"@)),
                    ],
                ),
                Seq::<char>::empty(),
            ),
        ),
{
    reveal_strlit("active_nodes");
    assert(is_plain("active_nodes"@));
    reveal_strlit("type");
    assert(is_plain("type"@));
    assert(signed_decimal(active_nodes as int) == decimal(active_nodes));
    let fields = seq![
        ("active_nodes"@, decimal(active_nodes)),
        ("type"@, json_quoted("telemetry"@)),
    ];
    let vals = seq![
        JsonValue::Num(active_nodes as int),
        JsonValue::Str("telemetry"@),
    ];
    lemma_decimal_reads_as(active_nodes as int);
    lemma_quoted_reads_as("telemetry"@);
    lemma_read_object(fields, vals, Seq::empty());
    assert(json_object(fields) + Seq::<char>::empty() =~= telemetry_json(active_nodes));
    assert(keyed(fields, vals) =~= seq![
        ("active_nodes"@, JsonValue::Num(active_nodes as int)),
        ("type"@, JsonValue::Str("telemetry"@)),
    ]);
}

/// Whoever reads a task for an agent gets back the task id and the command
/// line it was built from.
#[verifier::spinoff_prover]
pub proof fn law_task_reads_back(task_id: Seq<char>, payload: Seq<char>)
    ensures
        read_value(task_json(task_id, payload)) == Some(
            (
                JsonValue::Obj(
                    seq![
                        ("task_id"@, JsonValue::Str(task_id)),
                        ("type"@, JsonValue::Str("terminal"@)),
                        ("payload"@, JsonValue::Str(payload)),
                    ],
                ),
                Seq::<char>::empty(),
            ),
        ),
{
    reveal_strlit("task_id");
    assert(is_plain("task_id"@));
    reveal_strlit("type");
    assert(is_plain("type"@));
    reveal_strlit("payload");
    assert(is_plain("payload"@));
    let fields = seq![
        ("task_id"@, json_quoted(task_id)),
        ("type"@, json_quoted("terminal"@)),
        ("payload"@, json_quoted(payload)),
    ];
    let vals = seq![
        JsonValue::Str(task_id),
        JsonValue::Str("terminal"@),
        JsonValue::Str(payload),
    ];
    lemma_quoted_reads_as(task_id);
    lemma_quoted_reads_as("terminal"@);
    lemma_quoted_reads_as(payload);
    lemma_read_object(fields, vals, Seq::empty());
    assert(json_object(fields) + Seq::<char>::empty() =~= task_json(task_id, payload));
    assert(keyed(fields, vals) =~= seq![
        ("task_id"@, JsonValue::Str(task_id)),
        ("type"@, JsonValue::Str("terminal"@)),
        ("payload"@, JsonValue::Str(payload)),
    ]);
}

/// Whoever reads a line of a task's output gets back the task id and the
/// line, with the line break that ends it.
#[verifier::spinoff_prover]
pub proof fn law_stream_chunk_reads_back(task_id: Seq<char>, line: Seq<char>)
    ensures
        read_value(stream_chunk_json(task_id, line)) == Some(
            (
                JsonValue::Obj(
                    seq![
                        ("data"@, JsonValue::Str(line + "\r\n"@)),
                        ("task_id"@, JsonValue::Str(task_id)),
                        ("type"@, JsonValue::Str("stream_chunk"@)),
                    ],
                ),
                Seq::<char>::empty(),
            ),
        ),
{
    reveal_strlit("data");
    assert(is_plain("data"@));
    reveal_strlit("task_id");
    assert(is_plain("task_id"@));
    reveal_strlit("type");
    assert(is_plain("type"@));
    let fields = seq![
        ("data"@, json_quoted(line + "\r\n"@)),
        ("task_id"@, json_quoted(task_id)),
        ("type"@, json_quoted("stream_chunk"@)),
    ];
    let vals = seq![
        JsonValue::Str(line + "\r\n"@),
        JsonValue::Str(task_id),
        JsonValue::Str("stream_chunk"@),
    ];
    lemma_quoted_reads_as(line + "\r\n"@);
    lemma_quoted_reads_as(task_id);
    lemma_quoted_reads_as("stream_chunk"@);
    lemma_read_object(fields, vals, Seq::empty());
    assert(json_object(fields) + Seq::<char>::empty() =~= stream_chunk_json(task_id, line));
    assert(keyed(fields, vals) =~= seq![
        ("data"@, JsonValue::Str(line + "\r\n"@)),
        ("task_id"@, JsonValue::Str(task_id)),
        ("type"@, JsonValue::Str("stream_chunk"@)),
    ]);
}

/// Whoever reads a network candidate message gets back its sender, its
/// target and the candidate it carries.
#[verifier::spinoff_prover]
pub proof fn law_ice_candidate_reads_back(
    source: Seq<char>,
    target: Seq<char>,
    candidate: Seq<char>,
    value: JsonValue,
)
    requires
        reads_as(candidate, value),
    ensures
        read_value(ice_candidate_json(source, target, candidate)) == Some(
            (
                JsonValue::Obj(
                    seq![
                        ("candidate"@, value),
                        ("source_peer_id"@, JsonValue::Str(source)),
                        ("target_peer_id"@, JsonValue::Str(target)),
                        ("type"@, JsonValue::Str("ice-candidate"@)),
                    ],
                ),
                Seq::<char>::empty(),
            ),
        ),
{
    reveal_strlit("candidate");
    assert(is_plain("candidate"@));
    reveal_strlit("source_peer_id");
    assert(is_plain("source_peer_id"@));
    reveal_strlit("target_peer_id");
    assert(is_plain("target_peer_id"@));
    reveal_strlit("type");
    assert(is_plain("type"@));
    let fields = seq![
        ("candidate"@, candidate),
        ("source_peer_id"@, json_quoted(source)),
        ("target_peer_id"@, json_quoted(target)),
        ("type"@, json_quoted("ice-candidate"@)),
    ];
    let vals = seq![
        value,
        JsonValue::Str(source),
        JsonValue::Str(target),
        JsonValue::Str("ice-candidate"@),
    ];
    lemma_quoted_reads_as(source);
    lemma_quoted_reads_as(target);
    lemma_quoted_reads_as("ice-candidate"@);
    lemma_read_object(fields, vals, Seq::empty());
    assert(json_object(fields) + Seq::<char>::empty() =~= ice_candidate_json(source, target, candidate));
    assert(keyed(fields, vals) =~= seq![
        ("candidate"@, value),
        ("source_peer_id"@, JsonValue::Str(source)),
        ("target_peer_id"@, JsonValue::Str(target)),
        ("type"@, JsonValue::Str("ice-candidate"@)),
    ]);
}

/// An optional string as read back: the string, or null.
pub open spec fn opt_str_value(o: Option<Seq<char>>) -> JsonValue {
    match o {
        Some(s) => JsonValue::Str(s),
        None => JsonValue::Null,
    }
}

/// An optional number as read back: the number, or null.
pub open spec fn opt_num_value(o: Option<u16>) -> JsonValue {
    match o {
        Some(n) => JsonValue::Num(n as int),
        None => JsonValue::Null,
    }
}

proof fn lemma_opt_reads_as(s: Option<Seq<char>>, n: Option<u16>)
    ensures
        reads_as(json_opt_str(s), opt_str_value(s)),
        reads_as(json_opt_u16(n), opt_num_value(n)),
{
    lemma_null_reads_as();
    match s {
        Some(x) => lemma_quoted_reads_as(x),
        None => {},
    }
    match n {
        Some(m) => {
            lemma_decimal_reads_as(m as int);
            assert(signed_decimal(m as int) == decimal(m as nat));
        },
        None => {},
    }
}

/// Whoever reads a network candidate gets back its line, its media line
/// index, its media stream id and its username fragment, each null when
/// absent.
#[verifier::spinoff_prover]
pub proof fn law_candidate_reads_back(
    candidate: Seq<char>,
    sdp_mid: Option<Seq<char>>,
    sdp_mline_index: Option<u16>,
    username_fragment: Option<Seq<char>>,
)
    ensures
        read_value(candidate_json(candidate, sdp_mid, sdp_mline_index, username_fragment)) == Some(
            (
                JsonValue::Obj(
                    seq![
                        ("candidate"@, JsonValue::Str(candidate)),
                        ("sdpMLineIndex"@, opt_num_value(sdp_mline_index)),
                        ("sdpMid"@, opt_str_value(sdp_mid)),
                        ("usernameFragment"@, opt_str_value(username_fragment)),
                    ],
                ),
                Seq::<char>::empty(),
            ),
        ),
{
    reveal_strlit("candidate");
    reveal_strlit("sdpMLineIndex");
    reveal_strlit("sdpMid");
    reveal_strlit("usernameFragment");
    assert(is_plain("candidate"@));
    assert(is_plain("sdpMLineIndex"@));
    assert(is_plain("sdpMid"@));
    assert(is_plain("usernameFragment"@));
    let fields = seq![
        ("candidate"@, json_quoted(candidate)),
        ("sdpMLineIndex"@, json_opt_u16(sdp_mline_index)),
        ("sdpMid"@, json_opt_str(sdp_mid)),
        ("usernameFragment"@, json_opt_str(username_fragment)),
    ];
    let vals = seq![
        JsonValue::Str(candidate),
        opt_num_value(sdp_mline_index),
        opt_str_value(sdp_mid),
        opt_str_value(username_fragment),
    ];
    lemma_quoted_reads_as(candidate);
    lemma_opt_reads_as(sdp_mid, sdp_mline_index);
    lemma_opt_reads_as(username_fragment, None);
    lemma_read_object(fields, vals, Seq::empty());
    assert(json_object(fields) + Seq::<char>::empty() =~= candidate_json(
        candidate,
        sdp_mid,
        sdp_mline_index,
        username_fragment,
    ));
    assert(keyed(fields, vals) =~= seq![
        ("candidate"@, JsonValue::Str(candidate)),
        ("sdpMLineIndex"@, opt_num_value(sdp_mline_index)),
        ("sdpMid"@, opt_str_value(sdp_mid)),
        ("usernameFragment"@, opt_str_value(username_fragment)),
    ]);
}

}
