//! Which conversation a message belongs to.
//!
//! Session routing is scoped to the pair of chat topics: a prompt tells which
//! session its connection is on, and a chat response reaches only the
//! connection on its session. No other payload is routed by the session id that
//! it happens to carry.

use crate::json::{json_view, text_field, Json};
use crate::text::{opt_str, same};
use crate::topics::{CHAT_REQUEST_TOPIC, CHAT_RESPONSE_TOPIC};
use serde_json::Value;
use vstd::prelude::*;

verus! {

/// The session id that a payload carries: the string in its top-level
/// `session_id` field.
pub open spec fn session_of(payload: Json) -> Option<Seq<char>> {
    payload.text_field("session_id"@)
}

/// The session that an ingress message moves its connection to.
pub open spec fn session_bind(topic: Seq<char>, payload: Json) -> Option<Seq<char>> {
    if topic == CHAT_REQUEST_TOPIC@ {
        session_of(payload)
    } else {
        None
    }
}

/// The session that an outbound message is scoped to.
pub open spec fn session_scope(topic: Seq<char>, payload: Json) -> Option<Seq<char>> {
    if topic == CHAT_RESPONSE_TOPIC@ {
        session_of(payload)
    } else {
        None
    }
}

/// Extract the top-level `"session_id"` string from a message payload, if any.
///
/// Callers gate on the *topic* before applying it (see [`ingress_session_bind`]
/// and [`outbound_session_scope`]).
pub fn payload_session_id(payload: &Value) -> (r: Option<&str>)
    ensures
        opt_str(r) == session_of(json_view(*payload)),
{
    text_field(payload, "session_id")
}

/// The conversation session a connection should bind from an *ingress* message,
/// or `None` to leave the current binding unchanged.
///
/// Only a chat prompt ([`CHAT_REQUEST_TOPIC`]) retargets the connection's
/// session. The caller applies this solely to forwarded traffic, so a dropped,
/// blocked, or no-body message can never move a connection onto another session.
pub fn ingress_session_bind<'a>(topic: &str, payload: &'a Value) -> (r: Option<&'a str>)
    ensures
        opt_str(r) == session_bind(topic@, json_view(*payload)),
{
    if same(topic, CHAT_REQUEST_TOPIC) {
        payload_session_id(payload)
    } else {
        None
    }
}

/// The conversation session an *outbound* message is scoped to, or `None` to
/// route by principal alone.
///
/// Only streamed chat responses ([`CHAT_RESPONSE_TOPIC`]) are session-scoped.
/// Correlated replies keep principal routing even when their payload carries a
/// `session_id`, so a connection awaiting such a reply (whose own session may
/// not yet be bound) is never starved.
pub fn outbound_session_scope<'a>(topic: &str, payload: &'a Value) -> (r: Option<&'a str>)
    ensures
        opt_str(r) == session_scope(topic@, json_view(*payload)),
{
    if same(topic, CHAT_RESPONSE_TOPIC) {
        payload_session_id(payload)
    } else {
        None
    }
}

/// A chat response is scoped to the session whose id its payload carries as a
/// string, and nothing else is scoped.
pub proof fn chat_responses_are_scoped(topic: Seq<char>, payload: Json, session: Seq<char>)
    ensures
        session_scope(topic, payload) == Some(session) <==> {
            &&& topic == "agent.v1.response"@
            &&& payload matches Json::Object(fields) && fields.dom().contains("session_id"@)
                && fields["session_id"@] == Json::String(session)
        },
{
}

/// A prompt moves its connection to the session whose id its payload carries as a
/// string, and nothing else moves it.
pub proof fn prompts_move_the_session(topic: Seq<char>, payload: Json, session: Seq<char>)
    ensures
        session_bind(topic, payload) == Some(session) <==> {
            &&& topic == "user.v1.prompt"@
            &&& payload matches Json::Object(fields) && fields.dom().contains("session_id"@)
                && fields["session_id"@] == Json::String(session)
        },
        session_of(payload) == Some(session) <==> (payload matches Json::Object(fields)
            && fields.dom().contains("session_id"@) && fields["session_id"@] == Json::String(
            session,
        )),
{
}

} // verus!
