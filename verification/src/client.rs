//! A connected client.

use crate::binding::{binding_is_valid, valid_principal, DEFAULT_PRINCIPAL};
use crate::ingress::{handle_ingress, outcome_of, IngressOutcome, Outcome, Disposition};
use crate::json::json_of_bytes;
use crate::text::{as_deref, opt_string};
use crate::topics::{allowed_topic, CHAT_REQUEST_TOPIC};
use vstd::prelude::*;

verus! {

/// A connected client, bound to at most one principal.
///
/// `principal` stays `None` only for a connection that has not yet sent a usable
/// message; such a connection receives only events without a principal.
/// `session_id` is the conversation this connection is on, learned only from a
/// forwarded chat prompt; it tracks the latest session observed, so a connection
/// that switches session retargets what it receives.
///
/// The stream is of any type `S`; nothing here reads or writes it.
pub struct ProxyClient<S> {
    pub stream: S,
    pub principal: Option<String>,
    pub session_id: Option<String>,
}

/// A [`ProxyClient`] over plain values.
pub struct Client<S> {
    /// See [`ProxyClient::stream`].
    pub stream: S,
    /// See [`ProxyClient::principal`].
    pub principal: Option<Seq<char>>,
    /// See [`ProxyClient::session_id`].
    pub session_id: Option<Seq<char>>,
}

impl<S> View for ProxyClient<S> {
    type V = Client<S>;

    open spec fn view(&self) -> Client<S> {
        Client {
            stream: self.stream,
            principal: opt_string(self.principal),
            session_id: opt_string(self.session_id),
        }
    }
}

impl<S> Client<S> {
    /// A client that just connected.
    pub open spec fn fresh(stream: S) -> Client<S> {
        Client { stream, principal: None, session_id: None }
    }

    /// The client with an outcome folded onto it.
    pub open spec fn fold(self, outcome: Outcome) -> Client<S> {
        Client {
            stream: self.stream,
            principal: if outcome.newly_bound is Some {
                outcome.newly_bound
            } else {
                self.principal
            },
            session_id: if outcome.session_id is Some {
                outcome.session_id
            } else {
                self.session_id
            },
        }
    }

    /// The outcome of a message that this client sends.
    pub open spec fn outcome(self, bytes: Seq<u8>) -> Outcome {
        outcome_of(json_of_bytes(bytes), self.principal)
    }

    /// The client after it sent a message.
    pub open spec fn after(self, bytes: Seq<u8>) -> Client<S> {
        self.fold(self.outcome(bytes))
    }

    /// The client after it sent a list of messages.
    pub open spec fn after_all(self, messages: Seq<Seq<u8>>) -> Client<S>
        decreases messages.len(),
    {
        if messages.len() == 0 {
            self
        } else {
            self.after_all(messages.drop_last()).after(messages.last())
        }
    }

    /// A bound client is bound to a well-formed principal.
    pub open spec fn well_bound(self) -> bool {
        self.principal matches Some(p) ==> valid_principal(p)
    }
}

impl<S> ProxyClient<S> {
    /// A client that just connected: unbound, and on no session.
    pub fn new(stream: S) -> (r: Self)
        ensures
            r@ == Client::fresh(stream),
    {
        ProxyClient { stream, principal: None, session_id: None }
    }

    /// Apply the ingress rules to a message of this client and fold the outcome
    /// onto it.
    pub fn receive(&mut self, bytes: &[u8]) -> (r: IngressOutcome)
        ensures
            r@ == old(self)@.outcome(bytes@),
            final(self)@ == old(self)@.after(bytes@),
    {
        let outcome = handle_ingress(bytes, as_deref(&self.principal));
        if let Some(bound) = &outcome.newly_bound {
            self.principal = Some(bound.clone());
        }
        if let Some(session) = &outcome.session_id {
            self.session_id = Some(session.clone());
        }
        outcome
    }
}

/// One connection, one principal: once bound, a connection keeps its principal
/// whatever it sends.
pub proof fn bound_for_life<S>(client: Client<S>, messages: Seq<Seq<u8>>)
    requires
        client.principal is Some,
    ensures
        client.after_all(messages).principal == client.principal,
    decreases messages.len(),
{
    if messages.len() > 0 {
        bound_for_life(client, messages.drop_last());
    }
}

/// A message leaves a client unbound or bound to a well-formed principal, if it
/// was so before.
pub proof fn message_keeps_well_bound<S>(client: Client<S>, bytes: Seq<u8>)
    requires
        client.well_bound(),
    ensures
        client.after(bytes).well_bound(),
{
    if let Some(m) = json_of_bytes(bytes) {
        binding_is_valid(m.text_field("principal"@));
    }
}

/// A connection that starts unbound is, at every moment, unbound or bound to a
/// well-formed principal.
pub proof fn always_well_bound<S>(client: Client<S>, messages: Seq<Seq<u8>>)
    requires
        client.well_bound(),
    ensures
        client.after_all(messages).well_bound(),
    decreases messages.len(),
{
    if messages.len() > 0 {
        always_well_bound(client, messages.drop_last());
        message_keeps_well_bound(client.after_all(messages.drop_last()), messages.last());
    }
}

/// What is forwarded goes out under the sender's own principal, the one it is
/// bound to afterwards, and on a topic that clients may publish to.
pub proof fn forwards_as_itself<S>(client: Client<S>, bytes: Seq<u8>)
    ensures
        client.outcome(bytes).disposition matches Disposition::Forward { topic, payload, principal } ==> {
            &&& client.after(bytes).principal == Some(principal)
            &&& client.principal is Some ==> client.principal == Some(principal)
            &&& allowed_topic(topic)
        },
{
}

/// A message that is no JSON, or that the binding rule drops, changes nothing
/// about the connection.
pub proof fn dropped_changes_nothing<S>(client: Client<S>, bytes: Seq<u8>)
    ensures
        client.outcome(bytes).disposition is Malformed || client.outcome(bytes).disposition is Dropped
            ==> client.after(bytes) == client,
{
}

/// The session of a connection moves only by a forwarded chat prompt that
/// carries a session id, and then to that session.
pub proof fn session_moves_only_by_prompt<S>(client: Client<S>, bytes: Seq<u8>)
    ensures
        client.after(bytes).session_id == (match client.outcome(bytes).disposition {
            Disposition::Forward { topic, payload, .. } => if topic == CHAT_REQUEST_TOPIC@
                && payload.text_field("session_id"@) is Some {
                payload.text_field("session_id"@)
            } else {
                client.session_id
            },
            _ => client.session_id,
        }),
{
}

/// The principal that a message binds an unbound connection to: the one that it
/// carries, and the default one where it carries none. `None` where the message
/// is not usable: it is no JSON, or carries a malformed principal.
pub open spec fn usable_principal(bytes: Seq<u8>) -> Option<Seq<char>> {
    match json_of_bytes(bytes) {
        None => None,
        Some(m) => match m.text_field("principal"@) {
            None => Some(DEFAULT_PRINCIPAL@),
            Some(p) => if valid_principal(p) {
                Some(p)
            } else {
                None
            },
        },
    }
}

/// The principal of the first usable one of the messages.
pub open spec fn first_principal(messages: Seq<Seq<u8>>) -> Option<Seq<char>>
    decreases messages.len(),
{
    if messages.len() == 0 {
        None
    } else {
        match first_principal(messages.drop_last()) {
            Some(p) => Some(p),
            None => usable_principal(messages.last()),
        }
    }
}

/// The session of a chat prompt that is forwarded on a connection with binding
/// `current`; `None` where the message is no such prompt or carries no session.
pub open spec fn prompt_session(bytes: Seq<u8>, current: Option<Seq<char>>) -> Option<Seq<char>> {
    match outcome_of(json_of_bytes(bytes), current).disposition {
        Disposition::Forward { topic, payload, .. } => if topic == CHAT_REQUEST_TOPIC@ {
            payload.text_field("session_id"@)
        } else {
            None
        },
        _ => None,
    }
}

/// The session of the latest forwarded chat prompt among the messages.
pub open spec fn latest_session(messages: Seq<Seq<u8>>) -> Option<Seq<char>>
    decreases messages.len(),
{
    if messages.len() == 0 {
        None
    } else {
        match prompt_session(messages.last(), first_principal(messages.drop_last())) {
            Some(session) => Some(session),
            None => latest_session(messages.drop_last()),
        }
    }
}

/// What a connection is follows from what it has sent: it is bound to the
/// principal of its first usable message, and it is on the session of its latest
/// forwarded prompt.
pub proof fn known_by_what_it_sent<S>(stream: S, messages: Seq<Seq<u8>>)
    ensures
        Client::fresh(stream).after_all(messages) == (Client {
            stream,
            principal: first_principal(messages),
            session_id: latest_session(messages),
        }),
    decreases messages.len(),
{
    if messages.len() > 0 {
        known_by_what_it_sent(stream, messages.drop_last());
    }
}

/// An unbound connection stays unbound exactly as long as it sends only what is
/// no JSON or carries a malformed principal; anything else binds it.
pub proof fn unbound_until_usable<S>(client: Client<S>, bytes: Seq<u8>)
    requires
        client.principal is None,
    ensures
        client.after(bytes).principal is None <==> (match json_of_bytes(bytes) {
            None => true,
            Some(m) => m.text_field("principal"@) matches Some(p) && !valid_principal(p),
        }),
        client.after(bytes).principal is None ==> client.after(bytes) == client,
{
}

/// A client that just connected is unbound and on no session.
pub proof fn who_just_connected<S>(stream: S)
    ensures
        Client::fresh(stream).stream == stream,
        Client::fresh(stream).principal is None,
        Client::fresh(stream).session_id is None,
{
}

/// What a message makes of a client: it keeps its stream. It keeps its principal
/// where it has one, and else is bound to the principal that the message carries,
/// `default` where it carries none, unless the message is no JSON or its principal
/// is malformed. It moves to the session of a prompt that is forwarded.
pub proof fn what_a_message_makes_of_a_client<S>(client: Client<S>, bytes: Seq<u8>)
    ensures
        client.after(bytes).stream == client.stream,
        client.principal is Some ==> client.after(bytes).principal == client.principal,
        client.principal is None ==> client.after(bytes).principal == (
        match json_of_bytes(bytes) {
            Some(m) => match m.text_field("principal"@) {
                Some(claimed) if valid_principal(claimed) => Some(claimed),
                Some(_) => None,
                None => Some("default"@),
            },
            None => None,
        }),
        client.after(bytes).session_id == (match json_of_bytes(bytes) {
            Some(m) if m.text_field("topic"@) == Some("user.v1.prompt"@)
                && (m.text_field("principal"@) matches Some(claimed) ==> Some(claimed)
                == client.after(bytes).principal) && m.field("payload"@) is Some
                && m.field("payload"@)->0.text_field("session_id"@) is Some => {
                m.field("payload"@)->0.text_field("session_id"@)
            },
            _ => client.session_id,
        }),
{
    crate::topics::what_clients_may_publish_to("user.v1.prompt"@);
    reveal_strlit("user.v1.prompt");
    reveal_strlit("astrid.v1.admin.response.");
}

/// The outcome of a client's message goes by its bytes and by the principal that
/// the client is bound to.
pub proof fn outcome_goes_by_bytes_and_binding<S>(client: Client<S>, bytes: Seq<u8>)
    ensures
        client.outcome(bytes) == outcome_of(json_of_bytes(bytes), client.principal),
{
}

/// Messages make of a client what the last one makes of what the earlier ones
/// made of it.
pub proof fn messages_count_one_by_one<S>(client: Client<S>, messages: Seq<Seq<u8>>, last: Seq<u8>)
    ensures
        client.after_all(seq![]) == client,
        client.after_all(messages.push(last)) == client.after_all(messages).after(last),
{
    assert(messages.push(last).drop_last() =~= messages);
}

/// A client is known by its stream, its principal and its session.
pub proof fn clients_keep_their_values<S>(client: ProxyClient<S>)
    ensures
        client@.stream == client.stream,
        client@.principal == opt_string(client.principal),
        client@.session_id == opt_string(client.session_id),
{
}

} // verus!
