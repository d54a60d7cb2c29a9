//! The router's session with the signaling server: it registers, asks for
//! the hosts of its cluster at a fixed interval, connects to each host that
//! a host list newly names, and takes answers and network candidates only
//! from hosts it connected to.
use vstd::prelude::*;
use crate::json::string_views;
use crate::laws::connections;
use crate::laws::law_each_listed_host_connected_once;
use crate::laws::listed_somewhere;
use crate::laws::seen_after;
use crate::router::entry_names;
use crate::router::host_entries_of;
use crate::router::new_hosts;
use crate::router::KnownHosts;
use crate::signaling::answer_of;
use crate::signaling::candidate_json;
use crate::signaling::candidate_mline_index;
use crate::signaling::candidate_text;
use crate::signaling::discover_hosts_json;
use crate::signaling::discover_hosts_text;
use crate::signaling::ice_candidate_json;
use crate::signaling::ice_candidate_of;
use crate::signaling::ice_candidate_text;
use crate::signaling::peer_signal_of;
use crate::signaling::register_json;
use crate::signaling::session_description_json;
use crate::signaling::session_description_text;
use crate::signaling::view_or_empty;
use crate::signaling::AnswerFields;
use crate::signaling::IceCandidateFields;
use crate::signaling::IceCandidateMessage;
use crate::signaling::PeerSignal;
use crate::text::opt_view;
use crate::wire::json_array_field_strs;
use crate::wire::json_field_is_object;
use crate::wire::json_nested_has;
use crate::wire::json_nested_str;
use crate::wire::json_str_field;
use crate::wire::opt_views;

verus! {

/// How many seconds the router waits between two requests for the hosts of
/// its cluster.
pub const DISCOVERY_INTERVAL_SECS: u64 = 10;

/// The ids that the entries of a host list name, read from the wire; an
/// entry without a string names the empty id.
pub open spec fn listed_names(entries: Seq<Option<Seq<char>>>) -> Seq<Seq<char>> {
    entries.map_values(|e: Option<Seq<char>>| view_or_empty(e))
}

/// What the router does with a message from the signaling server.
pub enum RouterReaction {
    /// Open a connection to each of `hosts`, hosts that a host list names
    /// for the first time, and send each an offer.
    Connect { hosts: Vec<String> },
    /// Apply the answer of a host the router connected to.
    Answer(AnswerFields),
    /// Add a network candidate of a host the router connected to.
    Candidate(IceCandidateMessage),
    /// Nothing to do.
    Ignore,
}

/// The router's side of its session with the signaling server.
pub struct RouterSession {
    peer_id: String,
    known: KnownHosts,
    lists: Ghost<Seq<Seq<Seq<char>>>>,
    connected: Ghost<Seq<Seq<char>>>,
}

impl RouterSession {
    /// The peer id under which the router registered.
    pub closed spec fn peer_id(&self) -> Seq<char> {
        self.peer_id@
    }

    /// The hosts that the router knows, and to which it has connected.
    pub closed spec fn known_hosts(&self) -> Set<Seq<char>> {
        self.known.seen()
    }

    /// The names of every host list received so far, in turn.
    pub closed spec fn host_lists(&self) -> Seq<Seq<Seq<char>>> {
        self.lists@
    }

    /// The hosts the router has connected to, in the order of the
    /// connections.
    pub closed spec fn connected_hosts(&self) -> Seq<Seq<char>> {
        self.connected@
    }

    /// The known hosts and the connections are those that the host lists
    /// received so far bring, starting from no known host.
    pub closed spec fn wf(&self) -> bool {
        &&& self.known.wf()
        &&& self.known.seen() == seen_after(self.lists@, Set::empty())
        &&& self.connected@ == connections(self.lists@, Set::empty())
    }

    /// A session for the router `peer_id`, before any host list.
    pub fn new(peer_id: String) -> (r: RouterSession)
        ensures
            r.wf(),
            r.peer_id() == peer_id@,
            r.host_lists() == Seq::<Seq<Seq<char>>>::empty(),
            r.known_hosts() == Set::<Seq<char>>::empty(),
            r.connected_hosts() == Seq::<Seq<char>>::empty(),
    {
        RouterSession {
            peer_id,
            known: KnownHosts::new(),
            lists: Ghost(Seq::empty()),
            connected: Ghost(Seq::empty()),
        }
    }

    /// The router's id, as a string.
    pub fn peer_id_text(&self) -> (r: String)
        ensures
            r@ == self.peer_id(),
    {
        self.peer_id.clone()
    }

    /// The message with which the router joins the cluster `cluster_key`.
    pub fn register_message(&self, cluster_key: &str) -> (r: String)
        ensures
            r@ == register_json(self.peer_id(), cluster_key@),
    {
        crate::signaling::register_text(self.peer_id.as_str(), cluster_key)
    }

    /// The message with which the router asks for the hosts of its cluster,
    /// sent every `DISCOVERY_INTERVAL_SECS` seconds.
    pub fn discover_message(&self) -> (r: String)
        ensures
            r@ == discover_hosts_json(self.peer_id()),
    {
        discover_hosts_text(self.peer_id.as_str())
    }

    /// The offer to `target` with the session description `sdp`; none
    /// unless `target` is a host the router connected to.
    pub fn offer_message(&self, target: &String, sdp: &str) -> (r: Option<String>)
        requires
            self.wf(),
        ensures
            r is Some <==> self.known_hosts().contains(target@),
            r matches Some(m) ==> m@ == session_description_json(
                "offer"@,
                self.peer_id(),
                target@,
                sdp@,
            ),
    {
        if self.known.contains(target) {
            Some(session_description_text("offer", self.peer_id.as_str(), target.as_str(), sdp))
        } else {
            None
        }
    }

    /// The router's network candidate `fields`, with `username_fragment`,
    /// for `target`; none unless `target` is a host the router connected
    /// to.
    pub fn candidate_message(
        &self,
        target: &String,
        fields: &IceCandidateFields,
        username_fragment: &Option<String>,
    ) -> (r: Option<String>)
        requires
            self.wf(),
        ensures
            r is Some <==> self.known_hosts().contains(target@),
            r matches Some(m) ==> m@ == ice_candidate_json(
                self.peer_id(),
                target@,
                candidate_json(
                    fields.candidate@,
                    opt_view(fields.sdp_mid),
                    fields.sdp_mline_index,
                    opt_view(*username_fragment),
                ),
            ),
    {
        if self.known.contains(target) {
            let candidate = candidate_text(fields, username_fragment);
            Some(ice_candidate_text(self.peer_id.as_str(), target.as_str(), candidate.as_str()))
        } else {
            None
        }
    }

    /// Handles the message `text` from the signaling server. A host list
    /// makes the router connect to each host that it names for the first
    /// time, in the order of the list; an answer or a network candidate is
    /// taken only from a host the router connected to; anything else is
    /// ignored. Only a host list changes the session.
    pub fn on_signal(&mut self, text: &str) -> (r: RouterReaction)
        requires
            old(self).wf(),
        ensures
            final(self).wf(),
            final(self).peer_id() == old(self).peer_id(),
            json_str_field(text@, "type"@) == Some("host_list"@) ==> match json_array_field_strs(
                text@,
                "hosts"@,
                "peer_id"@,
            ) {
                Some(entries) => {
                    &&& r matches RouterReaction::Connect { hosts }
                    &&& string_views(hosts@) == new_hosts(
                        listed_names(entries),
                        old(self).known_hosts(),
                    )
                    &&& final(self).host_lists() == old(self).host_lists().push(
                        listed_names(entries),
                    )
                    &&& final(self).connected_hosts() == old(self).connected_hosts()
                        + string_views(hosts@)
                },
                None => r is Ignore && *final(self) == *old(self),
            },
            json_str_field(text@, "type"@) == Some("answer"@) ==> {
                &&& *final(self) == *old(self)
                &&& (r is Answer || r is Ignore)
                &&& r is Answer <==> (json_nested_str(text@, "sdp"@, "sdp"@) is Some && (json_str_field(
                    text@,
                    "source_peer_id"@,
                ) matches Some(source) && old(self).known_hosts().contains(source)))
                &&& r matches RouterReaction::Answer(a) ==> Some(a.source_peer_id@) == json_str_field(
                    text@,
                    "source_peer_id"@,
                ) && Some(a.sdp@) == json_nested_str(text@, "sdp"@, "sdp"@)
            },
            json_str_field(text@, "type"@) == Some("ice-candidate"@) ==> {
                &&& *final(self) == *old(self)
                &&& (r is Candidate || r is Ignore)
                &&& r is Candidate <==> (json_field_is_object(text@, "candidate"@) && json_nested_has(
                    text@,
                    "candidate"@,
                    "candidate"@,
                ) && (json_str_field(text@, "source_peer_id"@) matches Some(source) && old(
                    self,
                ).known_hosts().contains(source)))
                &&& r matches RouterReaction::Candidate(m) ==> {
                    &&& Some(m.source_peer_id@) == json_str_field(text@, "source_peer_id"@)
                    &&& m.candidate.candidate@ == view_or_empty(
                        json_nested_str(text@, "candidate"@, "candidate"@),
                    )
                    &&& opt_view(m.candidate.sdp_mid) == json_nested_str(
                        text@,
                        "candidate"@,
                        "sdpMid"@,
                    )
                    &&& m.candidate.sdp_mline_index == candidate_mline_index(text@)
                }
            },
            json_str_field(text@, "type"@) != Some("host_list"@) && json_str_field(text@, "type"@)
                != Some("answer"@) && json_str_field(text@, "type"@) != Some("ice-candidate"@) ==> {
                &&& r is Ignore
                &&& *final(self) == *old(self)
            },
    {
        match peer_signal_of(text) {
            PeerSignal::HostList => match host_entries_of(text) {
                Some(entries) => {
                    let ghost names = entry_names(entries@);
                    let ghost lists = self.lists@;
                    let ghost seen = self.known.seen();
                    proof {
                        assert(names =~= listed_names(opt_views(entries@)));
                    }
                    let hosts = self.known.take_new_hosts(&entries);
                    let ghost next = lists.push(names);
                    proof {
                        assert(next.drop_last() =~= lists);
                        assert(next.last() == names);
                        assert(self.known.seen() =~= seen_after(next, Set::empty()));
                    }
                    self.lists = Ghost(next);
                    self.connected = Ghost(self.connected@ + string_views(hosts@));
                    RouterReaction::Connect { hosts }
                },
                None => RouterReaction::Ignore,
            },
            PeerSignal::Answer => match answer_of(text) {
                Some(a) => {
                    if self.known.contains(&a.source_peer_id) {
                        RouterReaction::Answer(a)
                    } else {
                        RouterReaction::Ignore
                    }
                },
                None => RouterReaction::Ignore,
            },
            PeerSignal::IceCandidate => match ice_candidate_of(text) {
                Some(m) => {
                    if self.known.contains(&m.source_peer_id) {
                        RouterReaction::Candidate(m)
                    } else {
                        RouterReaction::Ignore
                    }
                },
                None => RouterReaction::Ignore,
            },
            _ => RouterReaction::Ignore,
        }
    }
}


/// Over the whole of a router's session, the hosts it knows are exactly
/// the non-empty ids that some host list it received names. These are the
/// only hosts it sends offers and network candidates to, and the only ones
/// whose answers and candidates it takes. It connected to each of them once.
pub proof fn law_router_talks_only_to_listed_hosts(s: RouterSession)
    requires
        s.wf(),
    ensures
        forall|x: Seq<char>|
            #[trigger] s.known_hosts().contains(x) <==> (x.len() > 0 && listed_somewhere(
                s.host_lists(),
                x,
            )),
        s.connected_hosts().no_duplicates(),
        forall|x: Seq<char>|
            #[trigger] s.connected_hosts().contains(x) <==> (x.len() > 0 && listed_somewhere(
                s.host_lists(),
                x,
            )),
{
    law_each_listed_host_connected_once(s.host_lists(), Set::empty());
}

}
