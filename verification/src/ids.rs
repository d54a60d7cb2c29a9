//! Identifiers: fresh task ids and the peer ids with which routers and
//! agents register.
use vstd::prelude::*;
use crate::text::is_prefix;

verus! {

/// The prefix of every router's peer id; the signaling server lists no peer
/// with this prefix as a host.
pub open spec fn router_prefix() -> Seq<char> {
    seq!['c', 'o', 'r', 'e', '_']
}

/// The prefix of every agent's peer id.
pub open spec fn agent_prefix() -> Seq<char> {
    seq!['a', 'g', 'e', 'n', 't', '_']
}

/// A lowercase hexadecimal digit.
pub open spec fn is_lower_hex(c: char) -> bool {
    ('0' as int <= c as int <= '9' as int) || ('a' as int <= c as int <= 'f' as int)
}

/// The simple form of a version-4 UUID: 32 lowercase hexadecimal digits,
/// of which the thirteenth is the version, `4`, and the seventeenth holds
/// the RFC 4122 variant, one of `8`, `9`, `a` and `b`.
pub open spec fn is_simple_uuid(s: Seq<char>) -> bool {
    &&& s.len() == 32
    &&& forall|i: int| 0 <= i < s.len() ==> is_lower_hex(#[trigger] s[i])
    &&& s[12] == '4'
    &&& (s[16] == '8' || s[16] == '9' || s[16] == 'a' || s[16] == 'b')
}

/// A fresh random UUID in its simple form.
///
/// Trusted: `uuid::Uuid::new_v4`, written through `Uuid::as_simple` and
/// `to_string`. The value is random; the contract states only its form:
/// the `Simple` formatter of the `uuid` crate writes 32 lowercase
/// hexadecimal digits, and `new_v4` masks the random bits so that the
/// version digit is `4` and the variant digit is `8`, `9`, `a` or `b`.
/// That two calls give different values is left unsaid: the digits are
/// random, and nothing in the source rules out a repeat.
#[verifier::external_body]
pub(crate) fn new_simple_uuid() -> (r: String)
    ensures
        is_simple_uuid(r@),
{
    uuid::Uuid::new_v4().as_simple().to_string()
}

/// A peer id: `prefix` followed by the first eight characters of `uuid`.
pub fn peer_id_from(prefix: &str, uuid: &str) -> (r: String)
    requires
        uuid@.len() >= 8,
    ensures
        r@ == prefix@ + uuid@.take(8),
{
    let head = uuid.substring_char(0, 8);
    let r = String::from_str(prefix).concat(head);
    assert(uuid@.subrange(0, 8) =~= uuid@.take(8));
    r
}

/// A fresh peer id for a router: `core_` and eight random lowercase
/// hexadecimal digits.
pub fn new_router_peer_id() -> (r: String)
    ensures
        is_prefix(router_prefix(), r@),
        r@.len() == 13,
        forall|i: int| 5 <= i < 13 ==> is_lower_hex(#[trigger] r@[i]),
{
    let u = new_simple_uuid();
    let r = peer_id_from("core_", u.as_str());
    proof {
        reveal_strlit("core_");
        assert(r@.subrange(0, 5) =~= router_prefix());
        assert forall|i: int| 5 <= i < 13 implies is_lower_hex(#[trigger] r@[i]) by {
            assert(r@[i] == u@[i - 5]);
        }
    }
    r
}

/// A fresh peer id for an agent: `agent_` and eight random lowercase
/// hexadecimal digits.
pub fn new_agent_peer_id() -> (r: String)
    ensures
        is_prefix(agent_prefix(), r@),
        r@.len() == 14,
        forall|i: int| 6 <= i < 14 ==> is_lower_hex(#[trigger] r@[i]),
{
    let u = new_simple_uuid();
    let r = peer_id_from("agent_", u.as_str());
    proof {
        reveal_strlit("agent_");
        assert(r@.subrange(0, 6) =~= agent_prefix());
        assert forall|i: int| 6 <= i < 14 implies is_lower_hex(#[trigger] r@[i]) by {
            assert(r@[i] == u@[i - 6]);
        }
    }
    r
}

/// A fresh task id: a random UUID in its simple form.
pub fn new_task_id() -> (r: String)
    ensures
        is_simple_uuid(r@),
{
    new_simple_uuid()
}

}
