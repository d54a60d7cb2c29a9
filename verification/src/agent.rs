//! The agent's side: its session with the signaling server, in which it
//! answers the routers that offer it a connection, and which messages from
//! a router are tasks to run.
use vstd::prelude::*;
use crate::text::is_some_str;
use crate::text::opt_view;
use crate::text::or_empty;
use crate::text::string_or_empty;
use crate::signaling::candidate_json;
use crate::signaling::candidate_mline_index;
use crate::signaling::candidate_text;
use crate::signaling::ice_candidate_json;
use crate::signaling::ice_candidate_of;
use crate::signaling::ice_candidate_text;
use crate::signaling::offer_of;
use crate::signaling::peer_signal_of;
use crate::signaling::register_json;
use crate::signaling::session_description_json;
use crate::signaling::session_description_text;
use crate::signaling::view_or_empty;
use crate::signaling::IceCandidateFields;
use crate::signaling::IceCandidateMessage;
use crate::signaling::OfferFields;
use crate::signaling::PeerSignal;
use crate::strmap::StrSet;
use crate::wire::json_field_is_object;
use crate::wire::json_nested_has;
use crate::wire::json_nested_str;
use crate::wire::json_str_field;
use crate::wire::message_text;
use crate::wire::message_text_of;
use crate::wire::str_field_of;

verus! {

/// A task that an agent runs: its id and the command line to run.
pub struct AgentTask {
    pub task_id: String,
    pub payload: String,
}

/// Reads a router's message on the data channel, with its fields `type`,
/// `payload` and `task_id` as far as they hold strings. A message of type
/// `terminal` is a task to run; a missing id or command reads as empty.
pub fn agent_task(
    msg_type: &Option<String>,
    payload: &Option<String>,
    task_id: &Option<String>,
) -> (r: Option<AgentTask>)
    ensures
        r is Some <==> opt_view(*msg_type) == Some("terminal"@),
        r matches Some(t) ==> t.task_id@ == or_empty(*task_id) && t.payload@ == or_empty(*payload),
{
    if is_some_str(msg_type, "terminal") {
        Some(AgentTask { task_id: string_or_empty(task_id), payload: string_or_empty(payload) })
    } else {
        None
    }
}

/// Reads a router's message that arrived on the data channel as `data`: a
/// task when its text is JSON of type `terminal`.
pub fn agent_task_of(data: &[u8]) -> (r: Option<AgentTask>)
    ensures
        r is Some <==> json_str_field(message_text(data@), "type"@) == Some("terminal"@),
        r matches Some(t) ==> t.task_id@ == view_or_empty(
            json_str_field(message_text(data@), "task_id"@),
        ) && t.payload@ == view_or_empty(json_str_field(message_text(data@), "payload"@)),
{
    let text = message_text_of(data);
    let msg_type = str_field_of(text.as_str(), "type");
    let payload = str_field_of(text.as_str(), "payload");
    let task_id = str_field_of(text.as_str(), "task_id");
    proof {
        assert(or_empty(payload) == view_or_empty(opt_view(payload)));
        assert(or_empty(task_id) == view_or_empty(opt_view(task_id)));
    }
    agent_task(&msg_type, &payload, &task_id)
}


/// What the agent does with a message from the signaling server.
pub enum AgentReaction {
    /// Open a connection for the router that sent this offer and, when the
    /// offer carries a session description, answer it.
    Offer(OfferFields),
    /// Add a network candidate of a router that offered a connection.
    Candidate(IceCandidateMessage),
    /// Nothing to do.
    Ignore,
}

/// The agent's side of its session with the signaling server.
pub struct AgentSession {
    peer_id: String,
    routers: StrSet,
    offers: Ghost<Seq<Seq<char>>>,
}

impl AgentSession {
    /// The peer id under which the agent registered.
    pub closed spec fn peer_id(&self) -> Seq<char> {
        self.peer_id@
    }

    /// The routers that offered the agent a connection.
    pub closed spec fn routers(&self) -> Set<Seq<char>> {
        self.routers@
    }

    /// The senders of the offers received so far, in turn.
    pub closed spec fn offers(&self) -> Seq<Seq<char>> {
        self.offers@
    }

    /// The routers are the senders of the offers received so far.
    pub closed spec fn wf(&self) -> bool {
        &&& self.routers.wf()
        &&& self.routers@ == self.offers@.to_set()
    }

    /// A session for the agent `peer_id`, before any offer.
    pub fn new(peer_id: String) -> (r: AgentSession)
        ensures
            r.wf(),
            r.peer_id() == peer_id@,
            r.offers() == Seq::<Seq<char>>::empty(),
    {
        let r = AgentSession { peer_id, routers: StrSet::new(), offers: Ghost(Seq::empty()) };
        assert(r.offers@.to_set() =~= Set::<Seq<char>>::empty());
        r
    }

    /// The agent's id, as a string.
    pub fn peer_id_text(&self) -> (r: String)
        ensures
            r@ == self.peer_id(),
    {
        self.peer_id.clone()
    }

    /// The message with which the agent joins the cluster `cluster_key`.
    pub fn register_message(&self, cluster_key: &str) -> (r: String)
        ensures
            r@ == register_json(self.peer_id(), cluster_key@),
    {
        crate::signaling::register_text(self.peer_id.as_str(), cluster_key)
    }

    /// The answer to `target` with the session description `sdp`; none
    /// unless `target` offered a connection.
    pub fn answer_message(&self, target: &String, sdp: &str) -> (r: Option<String>)
        requires
            self.wf(),
        ensures
            r is Some <==> self.routers().contains(target@),
            r matches Some(m) ==> m@ == session_description_json(
                "answer"@,
                self.peer_id(),
                target@,
                sdp@,
            ),
    {
        if self.routers.contains(target) {
            Some(session_description_text("answer", self.peer_id.as_str(), target.as_str(), sdp))
        } else {
            None
        }
    }

    /// The agent's network candidate `fields`, with `username_fragment`, for
    /// `target`; none unless `target` offered a connection.
    pub fn candidate_message(
        &self,
        target: &String,
        fields: &IceCandidateFields,
        username_fragment: &Option<String>,
    ) -> (r: Option<String>)
        requires
            self.wf(),
        ensures
            r is Some <==> self.routers().contains(target@),
            r matches Some(m) ==> m@ == ice_candidate_json(
                self.peer_id(),
                target@,
                candidate_json(
                    fields.candidate@,
                    opt_view(fields.sdp_mid),
                    fields.sdp_mline_index,
                    opt_view(*username_fragment),
                ),
            ),
    {
        if self.routers.contains(target) {
            let candidate = candidate_text(fields, username_fragment);
            Some(ice_candidate_text(self.peer_id.as_str(), target.as_str(), candidate.as_str()))
        } else {
            None
        }
    }

    /// Handles the message `text` from the signaling server. An offer whose
    /// sender is a string makes the agent accept that router; a network
    /// candidate is taken only from a router that offered; anything else is
    /// ignored. Only an offer changes the session.
    pub fn on_signal(&mut self, text: &str) -> (r: AgentReaction)
        requires
            old(self).wf(),
        ensures
            final(self).wf(),
            final(self).peer_id() == old(self).peer_id(),
            json_str_field(text@, "type"@) == Some("offer"@) ==> match json_str_field(
                text@,
                "source_peer_id"@,
            ) {
                Some(source) => {
                    &&& r matches AgentReaction::Offer(f)
                    &&& f.source_peer_id@ == source
                    &&& opt_view(f.sdp) == json_nested_str(text@, "sdp"@, "sdp"@)
                    &&& final(self).offers() == old(self).offers().push(source)
                },
                None => r is Ignore && *final(self) == *old(self),
            },
            json_str_field(text@, "type"@) == Some("ice-candidate"@) ==> {
                &&& *final(self) == *old(self)
                &&& (r is Candidate || r is Ignore)
                &&& r is Candidate <==> (json_field_is_object(text@, "candidate"@) && json_nested_has(
                    text@,
                    "candidate"@,
                    "candidate"@,
                ) && (json_str_field(text@, "source_peer_id"@) matches Some(source) && old(
                    self,
                ).routers().contains(source)))
                &&& r matches AgentReaction::Candidate(m) ==> {
                    &&& Some(m.source_peer_id@) == json_str_field(text@, "source_peer_id"@)
                    &&& m.candidate.candidate@ == view_or_empty(
                        json_nested_str(text@, "candidate"@, "candidate"@),
                    )
                    &&& opt_view(m.candidate.sdp_mid) == json_nested_str(
                        text@,
                        "candidate"@,
                        "sdpMid"@,
                    )
                    &&& m.candidate.sdp_mline_index == candidate_mline_index(text@)
                }
            },
            json_str_field(text@, "type"@) != Some("offer"@) && json_str_field(text@, "type"@) != Some(
                "ice-candidate"@,
            ) ==> {
                &&& r is Ignore
                &&& *final(self) == *old(self)
            },
    {
        match peer_signal_of(text) {
            PeerSignal::Offer => match offer_of(text) {
                Some(f) => {
                    let ghost next = self.offers@.push(f.source_peer_id@);
                    self.routers.insert(f.source_peer_id.clone());
                    proof {
                        assert(next.to_set() =~= self.offers@.to_set().insert(f.source_peer_id@)) by {
                            assert(next.last() == f.source_peer_id@);
                            assert forall|x: Seq<char>| next.contains(x) <==> (self.offers@.contains(x)
                                || x == f.source_peer_id@) by {
                                if next.contains(x) {
                                    let k = choose|k: int| 0 <= k < next.len() && next[k] == x;
                                    if k < self.offers@.len() {
                                        assert(self.offers@[k] == x);
                                    }
                                }
                                if self.offers@.contains(x) {
                                    let k = choose|k: int| 0 <= k < self.offers@.len() && self.offers@[k] == x;
                                    assert(next[k] == x);
                                }
                            }
                        }
                    }
                    self.offers = Ghost(next);
                    AgentReaction::Offer(f)
                },
                None => AgentReaction::Ignore,
            },
            PeerSignal::IceCandidate => match ice_candidate_of(text) {
                Some(m) => {
                    if self.routers.contains(&m.source_peer_id) {
                        AgentReaction::Candidate(m)
                    } else {
                        AgentReaction::Ignore
                    }
                },
                None => AgentReaction::Ignore,
            },
            _ => AgentReaction::Ignore,
        }
    }
}

/// Over the whole of an agent's session, the routers it answers, sends
/// network candidates to, and takes candidates from are exactly those that
/// sent it an offer.
pub proof fn law_agent_talks_only_to_routers_that_offered(s: AgentSession)
    requires
        s.wf(),
    ensures
        forall|x: Seq<char>| #[trigger] s.routers().contains(x) <==> s.offers().contains(x),
{
}

}
