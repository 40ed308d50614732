//! What becomes of one message that a client sent.

use crate::binding::{
    decide_ingress, decision, valid_principal, Decision, DropReason, IngressDecision, Refusal,
};
use crate::json::{get, json_of_bytes, json_view, parse_bytes, text_field, Json};
use crate::session::{ingress_session_bind, session_bind};
use crate::text::{opt_str, opt_string, to_owned_opt};
use crate::topics::{allowed_topic, is_allowed_ingress_topic};
use serde_json::Value;
use vstd::prelude::*;

verus! {

/// Outcome of applying the ingress rules to one client message: the two pieces
/// of connection state that the caller folds back onto the connection, and what
/// to do with the message.
pub struct IngressOutcome {
    /// `Some(principal)` only when this message *binds* a previously-unbound
    /// connection; `None` otherwise (already bound, malformed, dropped).
    pub newly_bound: Option<String>,
    /// The conversation this message binds the connection to, set only by a
    /// forwarded chat prompt. `None` for every other message, which leaves the
    /// connection's session unchanged.
    pub session_id: Option<String>,
    /// What to do with the message.
    pub disposition: IngressDisposition,
}

/// What to do with an ingress message.
pub enum IngressDisposition {
    /// Nothing: the bytes are no JSON.
    Malformed,
    /// Nothing: the binding rule drops the message.
    Dropped { reason: DropReason },
    /// Nothing to forward: the message lacks a topic or a payload. Its
    /// principal still binds the connection.
    NoBody,
    /// Nothing: clients may not publish to this topic. The message's principal
    /// still binds the connection.
    BlockedTopic { topic: String },
    /// Publish the payload on the topic under the connection's principal.
    Forward { topic: String, payload: Value, principal: String },
}

/// An [`IngressOutcome`] over plain values.
pub struct Outcome {
    /// See [`IngressOutcome::newly_bound`].
    pub newly_bound: Option<Seq<char>>,
    /// See [`IngressOutcome::session_id`].
    pub session_id: Option<Seq<char>>,
    /// See [`IngressOutcome::disposition`].
    pub disposition: Disposition,
}

/// An [`IngressDisposition`] over plain values.
pub enum Disposition {
    /// See [`IngressDisposition::Malformed`].
    Malformed,
    /// See [`IngressDisposition::Dropped`].
    Dropped(Refusal),
    /// See [`IngressDisposition::NoBody`].
    NoBody,
    /// See [`IngressDisposition::BlockedTopic`].
    BlockedTopic(Seq<char>),
    /// See [`IngressDisposition::Forward`].
    Forward { topic: Seq<char>, payload: Json, principal: Seq<char> },
}

impl View for IngressDisposition {
    type V = Disposition;

    open spec fn view(&self) -> Disposition {
        match *self {
            IngressDisposition::Malformed => Disposition::Malformed,
            IngressDisposition::Dropped { reason } => Disposition::Dropped(reason@),
            IngressDisposition::NoBody => Disposition::NoBody,
            IngressDisposition::BlockedTopic { topic } => Disposition::BlockedTopic(topic@),
            IngressDisposition::Forward { topic, payload, principal } => Disposition::Forward {
                topic: topic@,
                payload: json_view(payload),
                principal: principal@,
            },
        }
    }
}

impl View for IngressOutcome {
    type V = Outcome;

    open spec fn view(&self) -> Outcome {
        Outcome {
            newly_bound: opt_string(self.newly_bound),
            session_id: opt_string(self.session_id),
            disposition: self.disposition@,
        }
    }
}

/// The binding decision on a parsed message.
pub open spec fn message_decision(message: Json, current: Option<Seq<char>>) -> Decision {
    decision(current, message.text_field("principal"@))
}

/// What becomes of a parsed message that goes out under `principal`: it is
/// forwarded exactly when it has a topic string, a payload, and a topic that
/// clients may publish to.
pub open spec fn body_disposition(message: Json, principal: Seq<char>) -> Disposition {
    match (message.text_field("topic"@), message.field("payload"@)) {
        (Some(topic), Some(payload)) => if allowed_topic(topic) {
            Disposition::Forward { topic, payload, principal }
        } else {
            Disposition::BlockedTopic(topic)
        },
        _ => Disposition::NoBody,
    }
}

/// What becomes of a parsed message on a connection with binding `current`.
pub open spec fn message_disposition(message: Json, current: Option<Seq<char>>) -> Disposition {
    match message_decision(message, current) {
        Decision::Drop(reason) => Disposition::Dropped(reason),
        Decision::Bind(p) => body_disposition(message, p),
        Decision::ForwardAs(p) => body_disposition(message, p),
    }
}

/// The outcome of a message on a connection with binding `current`; the message
/// is `None` where its bytes are no JSON.
pub open spec fn outcome_of(message: Option<Json>, current: Option<Seq<char>>) -> Outcome {
    match message {
        None => Outcome { newly_bound: None, session_id: None, disposition: Disposition::Malformed },
        Some(m) => Outcome {
            newly_bound: message_decision(m, current).newly_bound(),
            session_id: match message_disposition(m, current) {
                Disposition::Forward { topic, payload, .. } => session_bind(topic, payload),
                _ => None,
            },
            disposition: message_disposition(m, current),
        },
    }
}

/// Parse an incoming client message and apply the per-connection binding rule
/// ([`decide_ingress`]) and the ingress allowlist to it.
///
/// `current_binding` is the connection's principal so far (`None` until the
/// first usable message binds it).
pub fn handle_ingress(bytes: &[u8], current_binding: Option<&str>) -> (r: IngressOutcome)
    ensures
        r@ == outcome_of(json_of_bytes(bytes@), opt_str(current_binding)),
{
    match parse_bytes(bytes) {
        None => IngressOutcome {
            newly_bound: None,
            session_id: None,
            disposition: IngressDisposition::Malformed,
        },
        Some(message) => handle_message(&message, current_binding),
    }
}

/// [`handle_ingress`] on a message that has been parsed.
///
/// The binding decision comes first: a conflicting or malformed principal is
/// dropped before any forward, and never changes the binding. A message is
/// always forwarded under the connection's own principal, never under that of
/// the proxy.
pub fn handle_message(message: &Value, current_binding: Option<&str>) -> (r: IngressOutcome)
    ensures
        r@ == outcome_of(Some(json_view(*message)), opt_str(current_binding)),
{
    let claimed = text_field(message, "principal");
    match decide_ingress(current_binding, claimed) {
        IngressDecision::Bind(p) => {
            let forward_as = p.clone();
            handle_body(message, forward_as, Some(p))
        },
        IngressDecision::ForwardAs(p) => handle_body(message, p, None),
        IngressDecision::Drop { reason } => IngressOutcome {
            newly_bound: None,
            session_id: None,
            disposition: IngressDisposition::Dropped { reason },
        },
    }
}

/// The part of [`handle_message`] that follows the binding decision.
fn handle_body(message: &Value, forward_as: String, newly_bound: Option<String>) -> (r:
    IngressOutcome)
    ensures
        opt_string(r.newly_bound) == opt_string(newly_bound),
        r.disposition@ == body_disposition(json_view(*message), forward_as@),
        opt_string(r.session_id) == (match body_disposition(json_view(*message), forward_as@) {
            Disposition::Forward { topic, payload, .. } => session_bind(topic, payload),
            _ => None,
        }),
{
    match (text_field(message, "topic"), get(message, "payload")) {
        (Some(topic), Some(payload)) => {
            if !is_allowed_ingress_topic(topic) {
                // A blocked message is not allowed to retarget the session either.
                return IngressOutcome {
                    newly_bound,
                    session_id: None,
                    disposition: IngressDisposition::BlockedTopic { topic: topic.to_owned() },
                };
            }
            IngressOutcome {
                newly_bound,
                session_id: to_owned_opt(ingress_session_bind(topic, payload)),
                disposition: IngressDisposition::Forward {
                    topic: topic.to_owned(),
                    payload: payload.clone(),
                    principal: forward_as,
                },
            }
        },
        _ => IngressOutcome { newly_bound, session_id: None, disposition: IngressDisposition::NoBody },
    }
}

/// What is forwarded is the message itself: the topic is the string in its field
/// `topic`, the payload is the value of its field `payload`, unchanged, and the
/// principal is the connection's own. Clients may publish to that topic.
pub proof fn forwards_topic_and_payload_unchanged(bytes: Seq<u8>, current: Option<Seq<char>>)
    ensures
        outcome_of(json_of_bytes(bytes), current).disposition matches Disposition::Forward {
            topic,
            payload,
            principal,
        } ==> {
            &&& json_of_bytes(bytes) is Some
            &&& json_of_bytes(bytes)->0.text_field("topic"@) == Some(topic)
            &&& json_of_bytes(bytes)->0.field("payload"@) == Some(payload)
            &&& allowed_topic(topic)
            &&& current is Some ==> principal == current->0
            &&& current is None ==> principal == (
            match json_of_bytes(bytes)->0.text_field("principal"@) {
                Some(claimed) => claimed,
                None => "default"@,
            })
        },
{
}

/// Every message that the binding rule lets pass, and that has a payload and a
/// topic that clients may publish to, is forwarded.
pub proof fn what_may_pass_is_forwarded(
    bytes: Seq<u8>,
    message: Json,
    current: Option<Seq<char>>,
    topic: Seq<char>,
    payload: Json,
)
    requires
        json_of_bytes(bytes) == Some(message),
        message.text_field("topic"@) == Some(topic),
        message.field("payload"@) == Some(payload),
        allowed_topic(topic),
        message.text_field("principal"@) matches Some(claimed) ==> (match current {
            Some(bound) => claimed == bound,
            None => valid_principal(claimed),
        }),
    ensures
        outcome_of(json_of_bytes(bytes), current).disposition == (Disposition::Forward {
            topic,
            payload,
            principal: match (current, message.text_field("principal"@)) {
                (Some(bound), _) => bound,
                (None, Some(claimed)) => claimed,
                (None, None) => "default"@,
            },
        }),
{
}

/// What is not forwarded, and why: bytes that are no JSON, a malformed principal
/// on an unbound connection, a principal other than the bound one, a message that
/// lacks a topic string or a payload, and a topic that clients may not publish to.
pub proof fn why_a_message_is_not_forwarded(bytes: Seq<u8>, current: Option<Seq<char>>)
    ensures
        outcome_of(json_of_bytes(bytes), current).disposition == Disposition::Malformed
            <==> json_of_bytes(bytes) is None,
        json_of_bytes(bytes) matches Some(m) ==> {
            let disposition = outcome_of(json_of_bytes(bytes), current).disposition;
            let claimed = m.text_field("principal"@);
            let lacks = m.text_field("topic"@) is None || m.field("payload"@) is None;
            let malformed = current is None && claimed is Some && !valid_principal(claimed->0);
            let conflicting = current is Some && claimed is Some && claimed != current;
            &&& malformed ==> disposition == Disposition::Dropped(
                Refusal::InvalidPrincipal(claimed->0),
            )
            &&& conflicting ==> disposition == Disposition::Dropped(
                Refusal::PrincipalConflict { bound: current->0, claimed: claimed->0 },
            )
            &&& disposition is Dropped ==> malformed || conflicting
            &&& disposition is NoBody <==> !malformed && !conflicting && lacks
            &&& !malformed && !conflicting && !lacks && !allowed_topic(
                m.text_field("topic"@)->0,
            ) ==> disposition == Disposition::BlockedTopic(m.text_field("topic"@)->0)
            &&& disposition is BlockedTopic ==> !malformed && !conflicting && !lacks
                && !allowed_topic(m.text_field("topic"@)->0)
        },
{
}

/// An unbound connection is bound by every JSON message but one that carries a
/// malformed principal: to the principal that it carries, and to `default` where
/// it carries none. A bound connection is not bound again.
pub proof fn what_a_message_binds(bytes: Seq<u8>, current: Option<Seq<char>>)
    ensures
        outcome_of(json_of_bytes(bytes), current).newly_bound == (match json_of_bytes(bytes) {
            Some(m) if current is None => match m.text_field("principal"@) {
                Some(claimed) if valid_principal(claimed) => Some(claimed),
                Some(_) => None,
                None => Some("default"@),
            },
            _ => None,
        }),
{
}

/// A message moves the session exactly when it is forwarded on the topic of
/// prompts and its payload carries a session id; it then moves to that session.
pub proof fn what_moves_the_session(bytes: Seq<u8>, current: Option<Seq<char>>)
    ensures
        outcome_of(json_of_bytes(bytes), current).session_id == (
        match outcome_of(json_of_bytes(bytes), current).disposition {
            Disposition::Forward { topic, payload, .. } if topic == "user.v1.prompt"@ => {
                payload.text_field("session_id"@)
            },
            _ => None,
        }),
{
}

/// An outcome is known by its texts and by what is to be done.
pub proof fn outcomes_keep_their_values(
    outcome: IngressOutcome,
    disposition: IngressDisposition,
    topic: String,
    payload: Value,
    principal: String,
    reason: DropReason,
)
    ensures
        outcome@.newly_bound == opt_string(outcome.newly_bound),
        outcome@.session_id == opt_string(outcome.session_id),
        outcome@.disposition == outcome.disposition@,
        disposition == IngressDisposition::Malformed ==> disposition@ == Disposition::Malformed,
        disposition == IngressDisposition::NoBody ==> disposition@ == Disposition::NoBody,
        disposition == (IngressDisposition::Dropped { reason }) ==> disposition@
            == Disposition::Dropped(reason@),
        disposition == (IngressDisposition::BlockedTopic { topic }) ==> disposition@
            == Disposition::BlockedTopic(topic@),
        disposition == (IngressDisposition::Forward { topic, payload, principal })
            ==> disposition@ == (Disposition::Forward {
            topic: topic@,
            payload: json_view(payload),
            principal: principal@,
        }),
{
}

} // verus!
