//! The signaling server's handling of one client connection, and the
//! signaling messages that clients send.
use vstd::prelude::*;
use crate::json::array_text;
use crate::json::decimal;
use crate::json::decimal_text;
use crate::json::json_array;
use crate::json::json_object;
use crate::json::json_quoted;
use crate::json::object_text;
use crate::json::pair_views;
use crate::json::quote;
use crate::json::string_views;
use crate::ids::router_prefix;
use crate::strmap::lemma_assoc_at;
use crate::strmap::StrMap;
use crate::text::is_prefix;
use crate::text::starts_with;
use crate::text::is_some_str;
use crate::text::opt_view;
use crate::text::or_empty;
use crate::wire::json_field_is_object;
use crate::wire::json_nested_has;
use crate::wire::json_nested_str;
use crate::wire::json_nested_u64;
use crate::wire::json_str_field;
use crate::wire::field_is_object;
use crate::wire::nested_has;
use crate::wire::nested_str_of;
use crate::wire::nested_u64_of;
use crate::wire::str_field_of;

verus! {

/// What the server reads of a text message from a client: the fields
/// `type`, `peer_id`, `cluster_key` and `target_peer_id`, each present when
/// it holds a string.
pub struct SignalingMessage {
    pub msg_type: Option<String>,
    pub peer_id: Option<String>,
    pub cluster_key: Option<String>,
    pub target_peer_id: Option<String>,
}

/// What the server does with a message.
pub enum SignalingAction {
    /// The client registered under `peer_id`: messages relayed to that id
    /// go to this client from now on.
    Registered { peer_id: String },
    /// Send `reply` back to the client; it lists `hosts`.
    HostList { hosts: Vec<String>, reply: String },
    /// Pass the message as it came to the client registered as
    /// `target_peer_id`.
    Relay { target_peer_id: String },
    /// Nothing to do.
    Ignore,
}

/// The peers that a peer `source` of `cluster` is offered as hosts: every
/// other registered peer of the same cluster, routers excluded.
pub open spec fn listed_hosts(
    m: Map<Seq<char>, Seq<char>>,
    source: Seq<char>,
    cluster: Seq<char>,
) -> Set<Seq<char>> {
    Set::new(
        |p: Seq<char>|
            m.contains_key(p) && m[p] == cluster && p != source && !is_prefix(router_prefix(), p),
    )
}

/// A registry entry whose peer `listed_hosts` includes.
pub open spec fn host_entry(
    e: (Seq<char>, Seq<char>),
    source: Seq<char>,
    cluster: Seq<char>,
) -> bool {
    e.1 == cluster && e.0 != source && !is_prefix(router_prefix(), e.0)
}

/// `p` is the key of one of the first `n` entries, and that entry is a host
/// entry.
pub open spec fn from_host_entry(
    ps: Seq<(Seq<char>, Seq<char>)>,
    p: Seq<char>,
    n: int,
    source: Seq<char>,
    cluster: Seq<char>,
) -> bool {
    exists|k: int| 0 <= k < n && ps[k].0 == p && #[trigger] host_entry(ps[k], source, cluster)
}

/// The hosts offered to `source`, a peer of `cluster`: each registered
/// peer of that cluster but `source` whose id does not start with
/// `core_`, once each, in the order in which they first registered. The
/// contract fixes the set of hosts, not their order.
pub fn hosts_for(registry: &StrMap, source: &String, cluster: &String) -> (r: Vec<String>)
    requires
        registry.wf(),
    ensures
        string_views(r@).no_duplicates(),
        string_views(r@).to_set() == listed_hosts(registry@, source@, cluster@),
{
    let entries = registry.entries();
    let ghost ps = registry.pairs();
    let mut r: Vec<String> = Vec::new();
    let mut i: usize = 0;
    while i < entries.len()
        invariant
            registry.wf(),
            ps == registry.pairs(),
            ps == pair_views(entries@),
            i <= entries@.len(),
            string_views(r@).no_duplicates(),
            forall|j: int| 0 <= j < r@.len() ==> from_host_entry(ps, #[trigger] r@[j]@, i as int, source@, cluster@),
            forall|k: int| 0 <= k < i && host_entry(#[trigger] ps[k], source@, cluster@)
                ==> string_views(r@).contains(ps[k].0),
        decreases entries.len() - i,
    {
        let is_router = starts_with(entries[i].0.as_str(), "core_");
        proof {
            reveal_strlit("core_");
        }
        assert("core_"@ =~= router_prefix());
        if entries[i].1 == *cluster && !(entries[i].0 == *source) && !is_router {
            let ghost before = r@;
            r.push(entries[i].0.clone());
            proof {
                let sv = string_views(r@);
                assert(sv =~= string_views(before).push(ps[i as int].0));
                assert(!string_views(before).contains(ps[i as int].0)) by {
                    if string_views(before).contains(ps[i as int].0) {
                        let j = choose|j: int| 0 <= j < before.len() && string_views(before)[j] == ps[i as int].0;
                        assert(before[j]@ == r@[j]@);
                        assert(from_host_entry(ps, before[j]@, i as int, source@, cluster@));
                        let k = choose|k: int| 0 <= k < i && ps[k].0 == before[j]@ && #[trigger] host_entry(ps[k], source@, cluster@);
                        assert(ps[k].0 != ps[i as int].0);
                    }
                }
                assert forall|j: int| 0 <= j < r@.len() implies from_host_entry(ps, #[trigger] r@[j]@, i + 1, source@, cluster@) by {
                    if j < before.len() {
                        assert(r@[j] == before[j]);
                        assert(from_host_entry(ps, before[j]@, i as int, source@, cluster@));
                        let k = choose|k: int| 0 <= k < i && ps[k].0 == before[j]@ && #[trigger] host_entry(ps[k], source@, cluster@);
                        assert(host_entry(ps[k], source@, cluster@));
                    } else {
                        assert(host_entry(ps[i as int], source@, cluster@));
                        assert(ps[i as int].0 == r@[j]@);
                    }
                }
                assert forall|k: int| 0 <= k < i + 1 && host_entry(#[trigger] ps[k], source@, cluster@)
                    implies string_views(r@).contains(ps[k].0) by {
                    if k < i {
                        let j = choose|j: int| 0 <= j < before.len() && string_views(before)[j] == ps[k].0;
                        assert(sv[j] == ps[k].0);
                    } else {
                        assert(sv[before.len() as int] == ps[k].0);
                    }
                }
            }
        } else {
            proof {
                assert(!host_entry(ps[i as int], source@, cluster@));
                assert forall|j: int| 0 <= j < r@.len() implies from_host_entry(ps, #[trigger] r@[j]@, i + 1, source@, cluster@) by {
                    assert(from_host_entry(ps, r@[j]@, i as int, source@, cluster@));
                    let k = choose|k: int| 0 <= k < i && ps[k].0 == r@[j]@ && #[trigger] host_entry(ps[k], source@, cluster@);
                    assert(host_entry(ps[k], source@, cluster@));
                }
            }
        }
        i = i + 1;
    }
    proof {
        let sv = string_views(r@);
        assert forall|p: Seq<char>| sv.to_set().contains(p) == listed_hosts(registry@, source@, cluster@).contains(p) by {
            if sv.to_set().contains(p) {
                let j = choose|j: int| 0 <= j < sv.len() && sv[j] == p;
                assert(from_host_entry(ps, r@[j]@, i as int, source@, cluster@));
                let k = choose|k: int| 0 <= k < i && ps[k].0 == r@[j]@ && #[trigger] host_entry(ps[k], source@, cluster@);
                lemma_assoc_at(ps, k);
            }
            if listed_hosts(registry@, source@, cluster@).contains(p) {
                let k = choose|k: int| 0 <= k < ps.len() && #[trigger] ps[k].0 == p;
                lemma_assoc_at(ps, k);
                assert(host_entry(ps[k], source@, cluster@));
            }
        }
        assert(sv.to_set() =~= listed_hosts(registry@, source@, cluster@));
    }
    r
}

/// The message types that the server relays between peers.
pub open spec fn is_relayed_type(t: Seq<char>) -> bool {
    t == "offer"@ || t == "answer"@ || t == "ice-candidate"@
}

/// The `host_list` reply that lists `hosts`.
pub open spec fn host_list_json(hosts: Seq<Seq<char>>) -> Seq<char> {
    json_object(
        seq![
            ("hosts"@, json_array(hosts.map_values(|h: Seq<char>| json_object(seq![("peer_id"@, json_quoted(h))])))),
            ("type"@, json_quoted("host_list"@)),
        ],
    )
}

/// The `register` message with which a peer joins a cluster.
pub open spec fn register_json(peer_id: Seq<char>, cluster_key: Seq<char>) -> Seq<char> {
    json_object(
        seq![
            ("cluster_key"@, json_quoted(cluster_key)),
            ("peer_id"@, json_quoted(peer_id)),
            ("type"@, json_quoted("register"@)),
        ],
    )
}

/// The `discover_hosts` message with which a router asks for the hosts of
/// its cluster.
pub open spec fn discover_hosts_json(peer_id: Seq<char>) -> Seq<char> {
    json_object(seq![("peer_id"@, json_quoted(peer_id)), ("type"@, json_quoted("discover_hosts"@))])
}

/// A session description message (`offer` or `answer`) from `source` to
/// `target`.
pub open spec fn session_description_json(
    kind: Seq<char>,
    source: Seq<char>,
    target: Seq<char>,
    sdp: Seq<char>,
) -> Seq<char> {
    json_object(
        seq![
            ("sdp"@, json_object(seq![("sdp"@, json_quoted(sdp)), ("type"@, json_quoted(kind))])),
            ("source_peer_id"@, json_quoted(source)),
            ("target_peer_id"@, json_quoted(target)),
            ("type"@, json_quoted(kind)),
        ],
    )
}

/// A network candidate message from `source` to `target`; `candidate` is
/// the candidate's own JSON text.
pub open spec fn ice_candidate_json(source: Seq<char>, target: Seq<char>, candidate: Seq<char>) -> Seq<
    char,
> {
    json_object(
        seq![
            ("candidate"@, candidate),
            ("source_peer_id"@, json_quoted(source)),
            ("target_peer_id"@, json_quoted(target)),
            ("type"@, json_quoted("ice-candidate"@)),
        ],
    )
}

/// A network candidate message from `source` to `target`, carrying the
/// candidate's JSON text `candidate`.
pub fn ice_candidate_text(source: &str, target: &str, candidate: &str) -> (r: String)
    ensures
        r@ == ice_candidate_json(source@, target@, candidate@),
{
    let mut f: Vec<(String, String)> = Vec::new();
    f.push((String::from_str("candidate"), String::from_str(candidate)));
    f.push((String::from_str("source_peer_id"), quote(source)));
    f.push((String::from_str("target_peer_id"), quote(target)));
    f.push((String::from_str("type"), quote("ice-candidate")));
    assert(pair_views(f@) =~= seq![
        ("candidate"@, candidate@),
        ("source_peer_id"@, json_quoted(source@)),
        ("target_peer_id"@, json_quoted(target@)),
        ("type"@, json_quoted("ice-candidate"@)),
    ]);
    object_text(&f)
}

/// The `host_list` reply that lists `hosts`, in their order.
pub fn host_list_text(hosts: &Vec<String>) -> (r: String)
    ensures
        r@ == host_list_json(string_views(hosts@)),
{
    let ghost hv = string_views(hosts@);
    let mut items: Vec<String> = Vec::new();
    let mut i: usize = 0;
    while i < hosts.len()
        invariant
            i <= hosts.len(),
            hv == string_views(hosts@),
            string_views(items@) == hv.take(i as int).map_values(
                |h: Seq<char>| json_object(seq![("peer_id"@, json_quoted(h))]),
            ),
        decreases hosts.len() - i,
    {
        let mut f: Vec<(String, String)> = Vec::new();
        f.push((String::from_str("peer_id"), quote(hosts[i].as_str())));
        assert(pair_views(f@) =~= seq![("peer_id"@, json_quoted(hv[i as int]))]);
        let item = object_text(&f);
        let ghost before = items@;
        items.push(item);
        assert(string_views(items@) =~= string_views(before).push(item@));
        assert(string_views(items@) =~= hv.take(i + 1).map_values(
            |h: Seq<char>| json_object(seq![("peer_id"@, json_quoted(h))]),
        ));
        i = i + 1;
    }
    assert(hv.take(hosts.len() as int) =~= hv);
    let list = array_text(&items);
    let mut f: Vec<(String, String)> = Vec::new();
    f.push((String::from_str("hosts"), list));
    f.push((String::from_str("type"), quote("host_list")));
    assert(pair_views(f@) =~= seq![
        ("hosts"@, json_array(hv.map_values(|h: Seq<char>| json_object(seq![("peer_id"@, json_quoted(h))])))),
        ("type"@, json_quoted("host_list"@)),
    ]);
    object_text(&f)
}

/// The `register` message for `peer_id` in `cluster_key`.
pub fn register_text(peer_id: &str, cluster_key: &str) -> (r: String)
    ensures
        r@ == register_json(peer_id@, cluster_key@),
{
    let mut f: Vec<(String, String)> = Vec::new();
    f.push((String::from_str("cluster_key"), quote(cluster_key)));
    f.push((String::from_str("peer_id"), quote(peer_id)));
    f.push((String::from_str("type"), quote("register")));
    assert(pair_views(f@) =~= seq![
        ("cluster_key"@, json_quoted(cluster_key@)),
        ("peer_id"@, json_quoted(peer_id@)),
        ("type"@, json_quoted("register"@)),
    ]);
    object_text(&f)
}

/// The `discover_hosts` message for `peer_id`.
pub fn discover_hosts_text(peer_id: &str) -> (r: String)
    ensures
        r@ == discover_hosts_json(peer_id@),
{
    let mut f: Vec<(String, String)> = Vec::new();
    f.push((String::from_str("peer_id"), quote(peer_id)));
    f.push((String::from_str("type"), quote("discover_hosts")));
    assert(pair_views(f@) =~= seq![
        ("peer_id"@, json_quoted(peer_id@)),
        ("type"@, json_quoted("discover_hosts"@)),
    ]);
    object_text(&f)
}

/// A session description message of `kind` (`offer` or `answer`) from
/// `source` to `target`, carrying `sdp`.
pub fn session_description_text(kind: &str, source: &str, target: &str, sdp: &str) -> (r: String)
    ensures
        r@ == session_description_json(kind@, source@, target@, sdp@),
{
    let mut inner: Vec<(String, String)> = Vec::new();
    inner.push((String::from_str("sdp"), quote(sdp)));
    inner.push((String::from_str("type"), quote(kind)));
    assert(pair_views(inner@) =~= seq![("sdp"@, json_quoted(sdp@)), ("type"@, json_quoted(kind@))]);
    let description = object_text(&inner);
    let mut f: Vec<(String, String)> = Vec::new();
    f.push((String::from_str("sdp"), description));
    f.push((String::from_str("source_peer_id"), quote(source)));
    f.push((String::from_str("target_peer_id"), quote(target)));
    f.push((String::from_str("type"), quote(kind)));
    assert(pair_views(f@) =~= seq![
        ("sdp"@, json_object(seq![("sdp"@, json_quoted(sdp@)), ("type"@, json_quoted(kind@))])),
        ("source_peer_id"@, json_quoted(source@)),
        ("target_peer_id"@, json_quoted(target@)),
        ("type"@, json_quoted(kind@)),
    ]);
    object_text(&f)
}

/// The kinds of message that the signaling server passes to a router or an
/// agent.
pub enum PeerSignal {
    /// The hosts of the router's cluster.
    HostList,
    /// A router offers a connection to an agent.
    Offer,
    /// An agent answers a router's offer.
    Answer,
    /// A network candidate for a connection.
    IceCandidate,
    /// Anything else.
    Other,
}

/// The kind of a message from the signaling server, by its `type`.
pub fn peer_signal(msg_type: &Option<String>) -> (r: PeerSignal)
    ensures
        r is HostList <==> opt_view(*msg_type) == Some("host_list"@),
        r is Offer <==> opt_view(*msg_type) == Some("offer"@),
        r is Answer <==> opt_view(*msg_type) == Some("answer"@),
        r is IceCandidate <==> opt_view(*msg_type) == Some("ice-candidate"@),
{
    proof {
        reveal_strlit("host_list");
        reveal_strlit("offer");
        reveal_strlit("answer");
        reveal_strlit("ice-candidate");
        assert("host_list"@.len() == 9);
        assert("offer"@.len() == 5);
        assert("answer"@.len() == 6);
        assert("ice-candidate"@.len() == 13);
    }
    if is_some_str(msg_type, "host_list") {
        PeerSignal::HostList
    } else if is_some_str(msg_type, "offer") {
        PeerSignal::Offer
    } else if is_some_str(msg_type, "answer") {
        PeerSignal::Answer
    } else if is_some_str(msg_type, "ice-candidate") {
        PeerSignal::IceCandidate
    } else {
        PeerSignal::Other
    }
}

/// The fields of a client's message, read from its text.
pub fn signaling_message_of(text: &str) -> (m: SignalingMessage)
    ensures
        opt_view(m.msg_type) == json_str_field(text@, "type"@),
        opt_view(m.peer_id) == json_str_field(text@, "peer_id"@),
        opt_view(m.cluster_key) == json_str_field(text@, "cluster_key"@),
        opt_view(m.target_peer_id) == json_str_field(text@, "target_peer_id"@),
{
    SignalingMessage {
        msg_type: str_field_of(text, "type"),
        peer_id: str_field_of(text, "peer_id"),
        cluster_key: str_field_of(text, "cluster_key"),
        target_peer_id: str_field_of(text, "target_peer_id"),
    }
}

/// The kind of a message from the signaling server, read from its text.
pub fn peer_signal_of(text: &str) -> (r: PeerSignal)
    ensures
        r is HostList <==> json_str_field(text@, "type"@) == Some("host_list"@),
        r is Offer <==> json_str_field(text@, "type"@) == Some("offer"@),
        r is Answer <==> json_str_field(text@, "type"@) == Some("answer"@),
        r is IceCandidate <==> json_str_field(text@, "type"@) == Some("ice-candidate"@),
{
    peer_signal(&str_field_of(text, "type"))
}

/// The characters of an optional string view, or none when it is absent.
pub open spec fn view_or_empty(o: Option<Seq<char>>) -> Seq<char> {
    match o {
        Some(s) => s,
        None => Seq::empty(),
    }
}

/// What an agent's answer carries: who sent it and its session
/// description.
pub struct AnswerFields {
    pub source_peer_id: String,
    pub sdp: String,
}

/// Reads an `answer` message: its sender and the text at `sdp.sdp`, when
/// both are strings.
pub fn answer_of(text: &str) -> (r: Option<AnswerFields>)
    ensures
        r is Some <==> (json_str_field(text@, "source_peer_id"@) is Some && json_nested_str(
            text@,
            "sdp"@,
            "sdp"@,
        ) is Some),
        r matches Some(f) ==> Some(f.source_peer_id@) == json_str_field(text@, "source_peer_id"@)
            && Some(f.sdp@) == json_nested_str(text@, "sdp"@, "sdp"@),
{
    match (str_field_of(text, "source_peer_id"), nested_str_of(text, "sdp", "sdp")) {
        (Some(source_peer_id), Some(sdp)) => Some(AnswerFields { source_peer_id, sdp }),
        _ => None,
    }
}

/// What a router's offer carries: who sent it and, if present, its session
/// description.
pub struct OfferFields {
    pub source_peer_id: String,
    pub sdp: Option<String>,
}

/// Reads an `offer` message: present when its sender is a string; the text
/// at `sdp.sdp` comes along when it is a string.
pub fn offer_of(text: &str) -> (r: Option<OfferFields>)
    ensures
        r is Some <==> json_str_field(text@, "source_peer_id"@) is Some,
        r matches Some(f) ==> Some(f.source_peer_id@) == json_str_field(text@, "source_peer_id"@)
            && opt_view(f.sdp) == json_nested_str(text@, "sdp"@, "sdp"@),
{
    match str_field_of(text, "source_peer_id") {
        Some(source_peer_id) => Some(
            OfferFields { source_peer_id, sdp: nested_str_of(text, "sdp", "sdp") },
        ),
        None => None,
    }
}

/// The fields of a network candidate: the candidate line, the media stream
/// id and the media line index.
pub struct IceCandidateFields {
    pub candidate: String,
    pub sdp_mid: Option<String>,
    pub sdp_mline_index: Option<u16>,
}

/// A string as JSON, or `null` when it is absent.
pub open spec fn json_opt_str(o: Option<Seq<char>>) -> Seq<char> {
    match o {
        Some(s) => json_quoted(s),
        None => "null"@,
    }
}

/// A number as JSON, or `null` when it is absent.
pub open spec fn json_opt_u16(o: Option<u16>) -> Seq<char> {
    match o {
        Some(n) => decimal(n as nat),
        None => "null"@,
    }
}

/// The JSON text of a network candidate, with its members in the order in
/// which `serde_json` writes an object's members.
pub open spec fn candidate_json(
    candidate: Seq<char>,
    sdp_mid: Option<Seq<char>>,
    sdp_mline_index: Option<u16>,
    username_fragment: Option<Seq<char>>,
) -> Seq<char> {
    json_object(
        seq![
            ("candidate"@, json_quoted(candidate)),
            ("sdpMLineIndex"@, json_opt_u16(sdp_mline_index)),
            ("sdpMid"@, json_opt_str(sdp_mid)),
            ("usernameFragment"@, json_opt_str(username_fragment)),
        ],
    )
}

fn opt_str_text(o: &Option<String>) -> (r: String)
    ensures
        r@ == json_opt_str(opt_view(*o)),
{
    match o {
        Some(s) => quote(s.as_str()),
        None => String::from_str("null"),
    }
}

/// The JSON text of a network candidate with the given fields and
/// username fragment.
pub fn candidate_text(fields: &IceCandidateFields, username_fragment: &Option<String>) -> (r: String)
    ensures
        r@ == candidate_json(
            fields.candidate@,
            opt_view(fields.sdp_mid),
            fields.sdp_mline_index,
            opt_view(*username_fragment),
        ),
{
    let index = match fields.sdp_mline_index {
        Some(n) => decimal_text(n as u64),
        None => String::from_str("null"),
    };
    let mut f: Vec<(String, String)> = Vec::new();
    f.push((String::from_str("candidate"), quote(fields.candidate.as_str())));
    f.push((String::from_str("sdpMLineIndex"), index));
    f.push((String::from_str("sdpMid"), opt_str_text(&fields.sdp_mid)));
    f.push((String::from_str("usernameFragment"), opt_str_text(username_fragment)));
    assert(pair_views(f@) =~= seq![
        ("candidate"@, json_quoted(fields.candidate@)),
        ("sdpMLineIndex"@, json_opt_u16(fields.sdp_mline_index)),
        ("sdpMid"@, json_opt_str(opt_view(fields.sdp_mid))),
        ("usernameFragment"@, json_opt_str(opt_view(*username_fragment))),
    ]);
    object_text(&f)
}

/// A network candidate message: who sent it and the candidate.
pub struct IceCandidateMessage {
    pub source_peer_id: String,
    pub candidate: IceCandidateFields,
}

/// The media line index of the candidate in `text`, cut to 16 bits.
pub open spec fn candidate_mline_index(text: Seq<char>) -> Option<u16> {
    match json_nested_u64(text, "candidate"@, "sdpMLineIndex"@) {
        Some(n) => Some(n as u16),
        None => None,
    }
}

/// Reads the candidate object at member `candidate` of `text`, which has a
/// member `candidate`: the candidate line (empty when it is not a string),
/// `sdpMid` when it is a string, and `sdpMLineIndex` when it is an unsigned
/// integer, cut to 16 bits.
pub fn candidate_fields(text: &str) -> (r: IceCandidateFields)
    requires
        json_field_is_object(text@, "candidate"@),
        json_nested_has(text@, "candidate"@, "candidate"@),
    ensures
        r.candidate@ == view_or_empty(json_nested_str(text@, "candidate"@, "candidate"@)),
        opt_view(r.sdp_mid) == json_nested_str(text@, "candidate"@, "sdpMid"@),
        r.sdp_mline_index == candidate_mline_index(text@),
{
    let candidate = match nested_str_of(text, "candidate", "candidate") {
        Some(c) => c,
        None => String::new(),
    };
    let sdp_mline_index = match nested_u64_of(text, "candidate", "sdpMLineIndex") {
        Some(n) => Some(n as u16),
        None => None,
    };
    IceCandidateFields { candidate, sdp_mid: nested_str_of(text, "candidate", "sdpMid"), sdp_mline_index }
}

/// Reads an `ice-candidate` message: present when its sender is a string
/// and its member `candidate` is an object that has a member `candidate`.
pub fn ice_candidate_of(text: &str) -> (r: Option<IceCandidateMessage>)
    ensures
        r is Some <==> (json_str_field(text@, "source_peer_id"@) is Some && json_field_is_object(
            text@,
            "candidate"@,
        ) && json_nested_has(text@, "candidate"@, "candidate"@)),
        r matches Some(m) ==> {
            &&& Some(m.source_peer_id@) == json_str_field(text@, "source_peer_id"@)
            &&& m.candidate.candidate@ == view_or_empty(
                json_nested_str(text@, "candidate"@, "candidate"@),
            )
            &&& opt_view(m.candidate.sdp_mid) == json_nested_str(text@, "candidate"@, "sdpMid"@)
            &&& m.candidate.sdp_mline_index == candidate_mline_index(text@)
        },
{
    match str_field_of(text, "source_peer_id") {
        Some(source_peer_id) => {
            if field_is_object(text, "candidate") && nested_has(text, "candidate", "candidate") {
                Some(IceCandidateMessage { source_peer_id, candidate: candidate_fields(text) })
            } else {
                None
            }
        },
        None => None,
    }
}

/// One client's connection to the signaling server: the peer id under
/// which it last registered, if any.
pub struct SignalingSession {
    registered_peer_id: Option<String>,
}

impl SignalingSession {
    /// The peer id under which the client last registered.
    pub closed spec fn registered(&self) -> Option<Seq<char>> {
        opt_view(self.registered_peer_id)
    }

    /// A connection on which no peer has registered yet.
    pub fn new() -> (r: SignalingSession)
        ensures
            r.registered() is None,
    {
        SignalingSession { registered_peer_id: None }
    }

    /// The peer id under which the client last registered.
    pub fn registered_peer_id(&self) -> (r: Option<String>)
        ensures
            opt_view(r) == self.registered(),
    {
        self.registered_peer_id.clone()
    }

    /// Handles one message of the client.
    ///
    /// `register` with a peer id and a cluster key registers the peer;
    /// `discover_hosts` from a registered peer answers with the hosts of its
    /// cluster; `offer`, `answer` and `ice-candidate` go on to their target
    /// if it is registered; anything else is ignored.
    pub fn handle(&mut self, registry: &mut StrMap, msg: &SignalingMessage) -> (action:
        SignalingAction)
        requires
            old(registry).wf(),
        ensures
            final(registry).wf(),
            or_empty(msg.msg_type) == "register"@ ==> {
                if msg.peer_id is Some && msg.cluster_key is Some {
                    &&& final(self).registered() == opt_view(msg.peer_id)
                    &&& final(registry)@ == old(registry)@.insert(
                        or_empty(msg.peer_id),
                        or_empty(msg.cluster_key),
                    )
                    &&& action matches SignalingAction::Registered { peer_id }
                    &&& peer_id@ == or_empty(msg.peer_id)
                } else {
                    &&& final(self).registered() == old(self).registered()
                    &&& final(registry)@ == old(registry)@
                    &&& action is Ignore
                }
            },
            or_empty(msg.msg_type) == "discover_hosts"@ ==> {
                &&& final(self).registered() == old(self).registered()
                &&& final(registry)@ == old(registry)@
                &&& (action is HostList <==> (old(self).registered() matches Some(src)
                    && old(registry)@.contains_key(src)))
                &&& action matches SignalingAction::HostList { hosts, reply } ==> {
                    let src = old(self).registered()->0;
                    &&& string_views(hosts@).no_duplicates()
                    &&& string_views(hosts@).to_set() == listed_hosts(
                        old(registry)@,
                        src,
                        old(registry)@[src],
                    )
                    &&& reply@ == host_list_json(string_views(hosts@))
                }
                &&& (action is HostList || action is Ignore)
            },
            is_relayed_type(or_empty(msg.msg_type)) ==> {
                &&& final(self).registered() == old(self).registered()
                &&& final(registry)@ == old(registry)@
                &&& (action is Relay <==> (msg.target_peer_id is Some && old(registry)@.contains_key(
                    or_empty(msg.target_peer_id),
                )))
                &&& action matches SignalingAction::Relay { target_peer_id } ==> target_peer_id@
                    == or_empty(msg.target_peer_id)
                &&& (action is Relay || action is Ignore)
            },
            (or_empty(msg.msg_type) != "register"@ && or_empty(msg.msg_type) != "discover_hosts"@
                && !is_relayed_type(or_empty(msg.msg_type))) ==> {
                &&& final(self).registered() == old(self).registered()
                &&& final(registry)@ == old(registry)@
                &&& action is Ignore
            },
    {
        proof {
            reveal_strlit("register");
            reveal_strlit("discover_hosts");
            reveal_strlit("offer");
            reveal_strlit("answer");
            reveal_strlit("ice-candidate");
            assert("register"@.len() == 8);
            assert("discover_hosts"@.len() == 14);
            assert("offer"@.len() == 5);
            assert("answer"@.len() == 6);
            assert("ice-candidate"@.len() == 13);
        }
        if is_some_str(&msg.msg_type, "register") {
            match (&msg.peer_id, &msg.cluster_key) {
                (Some(p), Some(c)) => {
                    self.registered_peer_id = Some(p.clone());
                    registry.insert(p.clone(), c.clone());
                    SignalingAction::Registered { peer_id: p.clone() }
                },
                _ => SignalingAction::Ignore,
            }
        } else if is_some_str(&msg.msg_type, "discover_hosts") {
            match &self.registered_peer_id {
                Some(src) => match registry.get(src) {
                    Some(cluster) => {
                        let hosts = hosts_for(registry, src, &cluster);
                        let reply = host_list_text(&hosts);
                        SignalingAction::HostList { hosts, reply }
                    },
                    None => SignalingAction::Ignore,
                },
                None => SignalingAction::Ignore,
            }
        } else if is_some_str(&msg.msg_type, "offer") || is_some_str(&msg.msg_type, "answer")
            || is_some_str(&msg.msg_type, "ice-candidate") {
            match &msg.target_peer_id {
                Some(t) => {
                    if registry.contains_key(t) {
                        SignalingAction::Relay { target_peer_id: t.clone() }
                    } else {
                        SignalingAction::Ignore
                    }
                },
                None => SignalingAction::Ignore,
            }
        } else {
            SignalingAction::Ignore
        }
    }

    /// The client went away: the peer it registered as, if any, leaves the
    /// registry, and is returned.
    pub fn close(&self, registry: &mut StrMap) -> (r: Option<String>)
        requires
            old(registry).wf(),
        ensures
            final(registry).wf(),
            opt_view(r) == self.registered(),
            final(registry)@ == match self.registered() {
                Some(p) => old(registry)@.remove(p),
                None => old(registry)@,
            },
    {
        match &self.registered_peer_id {
            Some(p) => {
                registry.remove(p);
                Some(p.clone())
            },
            None => None,
        }
    }
}

}
