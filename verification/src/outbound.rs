//! Fan-out of bus messages to the connected clients, routed by principal and by
//! session.

use crate::client::{Client, ProxyClient};
use crate::json::{
    encode, fields_of, json_encoding, json_of_text, json_view, object_value, parse_text,
    string_value, Json,
};
use crate::session::{outbound_session_scope, session_scope};
use crate::text::{as_deref, opt_str, opt_string, same_opt, to_owned_opt};
use serde_json::Value;
use vstd::prelude::*;

verus! {

/// Provenance of a bus message's principal.
#[derive(Debug, PartialEq, Eq)]
pub enum PrincipalAttribution {
    /// Principal verified by the kernel.
    Verified(String),
    /// Principal claimed by the uplink that published the message.
    Claimed(String),
    /// System event with no attributable principal.
    System,
}

/// A message polled from the bus.
pub struct Message {
    /// The topic this message was published on.
    pub topic: String,
    /// The message payload, as the text it was published as.
    pub payload: String,
    /// Id of the publisher.
    pub source_id: String,
    /// Whom the message is attributed to.
    pub principal: PrincipalAttribution,
}

/// What one poll of a subscription returned.
pub struct PollResult {
    /// Messages received since the last poll.
    pub messages: Vec<Message>,
    /// Number of messages lost to buffer overflow.
    pub dropped: u64,
}

/// A polled message ready for delivery: the serialized wire bytes, the principal
/// it is attributed to (`None` for a system event), and the conversation it is
/// scoped to (`None` to route by principal alone).
pub struct OutboundMessage {
    pub bytes: Vec<u8>,
    pub target: Option<String>,
    pub session: Option<String>,
}

/// One send that is due: message number `message` to client number `client`.
#[derive(Debug, PartialEq, Eq, Clone, Copy)]
pub struct Delivery {
    pub client: usize,
    pub message: usize,
}

/// A [`Message`] over plain values; its principal is the one it is attributed
/// to, verified or claimed.
pub struct Polled {
    /// See [`Message::topic`].
    pub topic: Seq<char>,
    /// See [`Message::payload`].
    pub payload: Seq<char>,
    /// See [`Message::source_id`].
    pub source_id: Seq<char>,
    /// The attributed principal.
    pub target: Option<Seq<char>>,
}

/// An [`OutboundMessage`] over plain values.
pub struct Outbound {
    /// See [`OutboundMessage::bytes`].
    pub bytes: Seq<u8>,
    /// See [`OutboundMessage::target`].
    pub target: Option<Seq<char>>,
    /// See [`OutboundMessage::session`].
    pub session: Option<Seq<char>>,
}

impl View for PrincipalAttribution {
    type V = Option<Seq<char>>;

    /// The principal that is named, verified or claimed.
    open spec fn view(&self) -> Option<Seq<char>> {
        match *self {
            PrincipalAttribution::Verified(p) => Some(p@),
            PrincipalAttribution::Claimed(p) => Some(p@),
            PrincipalAttribution::System => None,
        }
    }
}

impl View for Message {
    type V = Polled;

    open spec fn view(&self) -> Polled {
        Polled {
            topic: self.topic@,
            payload: self.payload@,
            source_id: self.source_id@,
            target: self.principal@,
        }
    }
}

impl View for OutboundMessage {
    type V = Outbound;

    open spec fn view(&self) -> Outbound {
        Outbound {
            bytes: self.bytes@,
            target: opt_string(self.target),
            session: opt_string(self.session),
        }
    }
}

/// The plain values of a list of polled messages.
pub open spec fn polled_views(messages: Seq<Message>) -> Seq<Polled> {
    Seq::new(messages.len(), |i: int| messages[i]@)
}

/// The plain values of a list of outbound messages.
pub open spec fn outbound_views(messages: Seq<OutboundMessage>) -> Seq<Outbound> {
    Seq::new(messages.len(), |i: int| messages[i]@)
}

/// The plain values of a list of clients.
pub open spec fn client_views<S>(clients: Seq<ProxyClient<S>>) -> Seq<Client<S>> {
    Seq::new(clients.len(), |i: int| clients[i]@)
}

/// A message for `msg_principal` on `msg_session` goes to a client bound to
/// `client_principal` on `client_session`: each key that the message has, the
/// client has too.
pub open spec fn delivers(
    msg_principal: Option<Seq<char>>,
    msg_session: Option<Seq<char>>,
    client_principal: Option<Seq<char>>,
    client_session: Option<Seq<char>>,
) -> bool {
    &&& msg_principal is Some ==> client_principal == msg_principal
    &&& msg_session is Some ==> client_session == msg_session
}

impl Outbound {
    /// The message goes to the client.
    pub open spec fn goes_to<S>(self, client: Client<S>) -> bool {
        delivers(self.target, self.session, client.principal, client.session_id)
    }
}

impl Polled {
    /// The payload as a JSON value: what its text parses to, and the text itself
    /// as a JSON string where it does not parse.
    pub open spec fn payload_json(self) -> Json {
        match json_of_text(self.payload) {
            Some(value) => value,
            None => Json::String(self.payload),
        }
    }

    /// The object that is sent on the wire.
    pub open spec fn wire(self) -> Json {
        wire_object(self.topic, self.payload_json(), self.source_id)
    }

    /// The outbound message; `None` where the wire object cannot be encoded.
    pub open spec fn outbound(self) -> Option<Outbound> {
        match json_encoding(self.wire()) {
            Some(bytes) => Some(
                Outbound {
                    bytes,
                    target: self.target,
                    session: session_scope(self.topic, self.payload_json()),
                },
            ),
            None => None,
        }
    }
}

/// The wire format of a message: an object of topic, payload and source id.
pub open spec fn wire_object(topic: Seq<char>, payload: Json, source_id: Seq<char>) -> Json {
    Json::Object(
        map![
            "topic"@ => Json::String(topic),
            "payload"@ => payload,
            "source_id"@ => Json::String(source_id),
        ],
    )
}

/// The outbound messages of a poll, in order; one that cannot be encoded is
/// left out.
pub open spec fn outbound_of(messages: Seq<Polled>) -> Seq<Outbound>
    decreases messages.len(),
{
    if messages.len() == 0 {
        seq![]
    } else {
        let before = outbound_of(messages.drop_last());
        match messages.last().outbound() {
            Some(message) => before.push(message),
            None => before,
        }
    }
}

/// The sends that are due to client number `i` from the first `n` messages.
pub open spec fn due_to<S>(
    client: Client<S>,
    i: usize,
    messages: Seq<Outbound>,
    n: nat,
) -> Seq<Delivery>
    decreases n,
{
    if n == 0 {
        seq![]
    } else {
        let before = due_to(client, i, messages, (n - 1) as nat);
        if messages[n - 1].goes_to(client) {
            before.push(Delivery { client: i, message: (n - 1) as usize })
        } else {
            before
        }
    }
}

/// The sends that are due to the first `n` clients: client by client, and to
/// each in the order of the messages. A client in `dead` gets none.
pub open spec fn due<S>(
    clients: Seq<Client<S>>,
    dead: Seq<usize>,
    messages: Seq<Outbound>,
    n: nat,
) -> Seq<Delivery>
    decreases n,
{
    if n == 0 {
        seq![]
    } else {
        let before = due(clients, dead, messages, (n - 1) as nat);
        let i = (n - 1) as usize;
        if dead.contains(i) {
            before
        } else {
            before + due_to(clients[n - 1], i, messages, messages.len())
        }
    }
}

/// Collapse a [`PrincipalAttribution`] to the target principal for outbound
/// routing. Both `Verified` and `Claimed` name a concrete principal; `System`
/// events have none and go to everyone.
///
/// Routing does not distinguish verified from claimed: the question is only
/// whose client a message belongs to, not a capability check.
pub fn attribution_target(attr: &PrincipalAttribution) -> (r: Option<&str>)
    ensures
        opt_str(r) == attr@,
{
    match attr {
        PrincipalAttribution::Verified(p) => Some(p.as_str()),
        PrincipalAttribution::Claimed(p) => Some(p.as_str()),
        PrincipalAttribution::System => None,
    }
}

/// Should a bus message attributed to `msg_principal` and scoped to
/// `msg_session` be delivered to a client bound to `client_principal` on session
/// `client_session`?
///
/// Two gates, both must pass:
///
/// * PRINCIPAL: `Some(p)` delivers only to clients bound to exactly `p`; `None`
///   passes for every client, including unbound ones.
/// * SESSION: `Some(s)` delivers only to the client currently on session `s`;
///   `None` passes for every client that cleared the principal gate.
pub fn should_deliver(
    msg_principal: Option<&str>,
    msg_session: Option<&str>,
    client_principal: Option<&str>,
    client_session: Option<&str>,
) -> (r: bool)
    ensures
        r == delivers(
            opt_str(msg_principal),
            opt_str(msg_session),
            opt_str(client_principal),
            opt_str(client_session),
        ),
{
    if msg_principal.is_some() && !same_opt(client_principal, msg_principal) {
        return false;
    }
    msg_session.is_none() || same_opt(client_session, msg_session)
}

/// The object that is sent on the wire: `{topic, payload, source_id}`.
pub fn wire_value(topic: &str, payload: Value, source_id: &str) -> (r: Value)
    ensures
        json_view(r) == wire_object(topic@, json_view(payload), source_id@),
{
    let topic_value = string_value(topic.to_owned());
    let source_value = string_value(source_id.to_owned());
    let mut entries: Vec<(String, Value)> = Vec::new();
    entries.push(("topic".to_owned(), topic_value));
    let ghost one = entries@;
    entries.push(("payload".to_owned(), payload));
    let ghost two = entries@;
    entries.push(("source_id".to_owned(), source_value));
    proof {
        reveal_strlit("topic");
        reveal_strlit("payload");
        reveal_strlit("source_id");
        assert("topic"@.len() == 5 && "payload"@.len() == 7 && "source_id"@.len() == 9);
        assert(entries@.drop_last() =~= two);
        assert(two.drop_last() =~= one);
        assert(one.drop_last() =~= Seq::empty());
        reveal_with_fuel(fields_of, 4);
        assert(fields_of(entries@) =~= map![
            "topic"@ => Json::String(topic@),
            "payload"@ => json_view(payload),
            "source_id"@ => Json::String(source_id@),
        ]);
    }
    object_value(entries)
}

/// The payload to send: what its text parsed to, and the text itself as a JSON
/// string where it did not parse.
pub fn payload_value(parsed: Option<Value>, text: &str) -> (r: Value)
    ensures
        json_view(r) == (match parsed {
            Some(value) => json_view(value),
            None => Json::String(text@),
        }),
{
    match parsed {
        Some(value) => value,
        None => string_value(text.to_owned()),
    }
}

/// A polled message with its wire bytes, addressed to the principal it is
/// attributed to, and scoped to the session of its payload where it is a chat
/// response.
pub fn addressed(message: &Message, payload: &Value, bytes: Vec<u8>) -> (r: OutboundMessage)
    ensures
        r@ == (Outbound {
            bytes: bytes@,
            target: message@.target,
            session: session_scope(message@.topic, json_view(*payload)),
        }),
{
    OutboundMessage {
        bytes,
        target: to_owned_opt(attribution_target(&message.principal)),
        session: to_owned_opt(outbound_session_scope(message.topic.as_str(), payload)),
    }
}

/// A polled message as it goes to the clients: its payload parsed back to a JSON
/// value, so that a client receives an embedded object and not an escaped
/// string. `None` where the wire object cannot be encoded.
pub fn outbound_message(message: &Message) -> (r: Option<OutboundMessage>)
    ensures
        match r {
            Some(m) => message@.outbound() == Some(m@),
            None => message@.outbound() is None,
        },
{
    let text = message.payload.as_str();
    let payload = payload_value(parse_text(text), text);
    let wire = wire_value(message.topic.as_str(), payload.clone(), message.source_id.as_str());
    match encode(&wire) {
        Some(bytes) => Some(addressed(message, &payload, bytes)),
        None => None,
    }
}

/// The outbound messages of a poll, each encoded and addressed once.
pub fn outbound_messages(messages: &Vec<Message>) -> (r: Vec<OutboundMessage>)
    ensures
        outbound_views(r@) == outbound_of(polled_views(messages@)),
{
    let ghost polled = polled_views(messages@);
    let mut out: Vec<OutboundMessage> = Vec::new();
    let mut i: usize = 0;
    assert(polled.take(0) =~= seq![]);
    while i < messages.len()
        invariant
            i <= messages.len(),
            polled == polled_views(messages@),
            outbound_views(out@) == outbound_of(polled.take(i as int)),
        decreases messages.len() - i,
    {
        let ghost before = outbound_views(out@);
        proof {
            assert(polled.take(i + 1).drop_last() =~= polled.take(i as int));
            assert(polled.take(i + 1).last() == messages@[i as int]@);
        }
        if let Some(message) = outbound_message(&messages[i]) {
            out.push(message);
            assert(outbound_views(out@) =~= before.push(message@));
        }
        i += 1;
    }
    assert(polled.take(polled.len() as int) =~= polled);
    out
}

/// Whether `list` holds `x`.
pub(crate) fn holds(list: &Vec<usize>, x: usize) -> (r: bool)
    ensures
        r == list@.contains(x),
{
    let mut i: usize = 0;
    while i < list.len()
        invariant
            i <= list.len(),
            forall|j: int| 0 <= j < i ==> list@[j] != x,
        decreases list.len() - i,
    {
        if list[i] == x {
            return true;
        }
        i += 1;
    }
    false
}

/// The sends that are due: to each client that is not in `dead`, every message
/// whose principal and session gates it clears.
pub fn plan_deliveries<S>(
    clients: &Vec<ProxyClient<S>>,
    messages: &Vec<OutboundMessage>,
    dead: &Vec<usize>,
) -> (r: Vec<Delivery>)
    ensures
        r@ == due(client_views(clients@), dead@, outbound_views(messages@), clients@.len()),
{
    let ghost who = client_views(clients@);
    let ghost what = outbound_views(messages@);
    let mut plan: Vec<Delivery> = Vec::new();
    let mut i: usize = 0;
    while i < clients.len()
        invariant
            i <= clients.len(),
            who == client_views(clients@),
            what == outbound_views(messages@),
            plan@ == due(who, dead@, what, i as nat),
        decreases clients.len() - i,
    {
        // Skip streams already marked dead by an earlier broadcast.
        if !holds(dead, i) {
            let ghost before = plan@;
            let mut k: usize = 0;
            while k < messages.len()
                invariant
                    i < clients.len(),
                    k <= messages.len(),
                    who == client_views(clients@),
                    what == outbound_views(messages@),
                    plan@ == before + due_to(who[i as int], i, what, k as nat),
                decreases messages.len() - k,
            {
                let message = &messages[k];
                let client = &clients[i];
                assert(what[k as int] == message@ && who[i as int] == client@);
                if should_deliver(
                    as_deref(&message.target),
                    as_deref(&message.session),
                    as_deref(&client.principal),
                    as_deref(&client.session_id),
                ) {
                    plan.push(Delivery { client: i, message: k });
                }
                k += 1;
            }
        }
        i += 1;
    }
    plan
}

impl PollResult {
    /// The number of lost messages to report: none where nothing was lost, and
    /// none with an empty poll, which is not broadcast.
    pub fn loss_to_report(&self) -> (r: Option<u64>)
        ensures
            r == (if self.messages@.len() > 0 && self.dropped > 0 {
                Some(self.dropped)
            } else {
                None
            }),
    {
        if self.messages.len() > 0 && self.dropped > 0 {
            Some(self.dropped)
        } else {
            None
        }
    }
}

/// The messages of a poll and the sends that are due of them.
pub struct Broadcast {
    /// The outbound messages.
    pub messages: Vec<OutboundMessage>,
    /// The sends that are due, in order.
    pub plan: Vec<Delivery>,
}

/// Fan a poll out to connected clients, routed by principal and session, so a
/// bound connection sees only messages stamped with its own principal (plus
/// system events), and a chat response only when it is on that session. Clients
/// in `dead` (indices into `clients`) are skipped.
pub fn broadcast_poll_messages<S>(
    clients: &Vec<ProxyClient<S>>,
    poll_result: &PollResult,
    dead: &Vec<usize>,
) -> (r: Broadcast)
    ensures
        outbound_views(r.messages@) == outbound_of(polled_views(poll_result.messages@)),
        r.plan@ == due(
            client_views(clients@),
            dead@,
            outbound_views(r.messages@),
            clients@.len(),
        ),
{
    let messages = outbound_messages(&poll_result.messages);
    let plan = plan_deliveries(clients, &messages, dead);
    Broadcast { messages, plan }
}

/// The wire object embeds the payload itself, beside the topic and the source
/// id; a payload text that parses is not sent as a string.
pub proof fn payload_is_embedded(message: Polled)
    ensures
        message.wire().text_field("topic"@) == Some(message.topic),
        message.wire().text_field("source_id"@) == Some(message.source_id),
        message.wire().field("payload"@) == Some(message.payload_json()),
        json_of_text(message.payload) is Some ==> message.wire().field("payload"@) == json_of_text(
            message.payload,
        ),
        json_of_text(message.payload) is None ==> message.wire().field("payload"@) == Some(
            Json::String(message.payload),
        ),
{
    reveal_strlit("topic");
    reveal_strlit("payload");
    reveal_strlit("source_id");
    assert("topic"@.len() == 5 && "payload"@.len() == 7 && "source_id"@.len() == 9);
}

/// The outbound messages of a poll are those of its messages: each comes from
/// one of them, and each that can be encoded is among them.
pub proof fn outbound_covers_the_poll(messages: Seq<Polled>)
    ensures
        forall|m: Outbound| #[trigger]
            outbound_of(messages).contains(m) <==> exists|k: int|
                0 <= k < messages.len() && #[trigger] messages[k].outbound() == Some(m),
    decreases messages.len(),
{
    if messages.len() > 0 {
        let head = messages.drop_last();
        let last = messages.len() - 1;
        outbound_covers_the_poll(head);
        let list = outbound_of(messages);
        let earlier = outbound_of(head);
        assert forall|m: Outbound| #[trigger]
            list.contains(m) <==> exists|k: int|
                0 <= k < messages.len() && #[trigger] messages[k].outbound() == Some(m) by {
            if list.contains(m) {
                let j = choose|j: int| 0 <= j < list.len() && list[j] == m;
                if j < earlier.len() {
                    assert(earlier[j] == m);
                    assert(earlier.contains(m));
                    let k = choose|k: int|
                        0 <= k < head.len() && #[trigger] head[k].outbound() == Some(m);
                    assert(messages[k].outbound() == Some(m));
                } else {
                    assert(messages[last].outbound() == Some(m));
                }
            }
            if exists|k: int|
                0 <= k < messages.len() && #[trigger] messages[k].outbound() == Some(m) {
                let k = choose|k: int|
                    0 <= k < messages.len() && #[trigger] messages[k].outbound() == Some(m);
                if k == last {
                    assert(list[list.len() - 1] == m);
                } else {
                    assert(head[k].outbound() == Some(m));
                    assert(earlier.contains(m));
                    let j = choose|j: int| 0 <= j < earlier.len() && earlier[j] == m;
                    assert(list[j] == m);
                }
            }
        }
    }
}

/// A message attributed to a principal never reaches two clients of different
/// principals, and never a client of another one.
pub proof fn never_across_principals<S>(message: Outbound, a: Client<S>, b: Client<S>)
    requires
        message.target is Some,
    ensures
        message.goes_to(a) ==> a.principal == message.target,
        message.goes_to(a) && message.goes_to(b) ==> a.principal == b.principal,
{
}

/// A message scoped to a session never reaches two clients on different
/// sessions, nor a client on another session or on none, not even under one
/// principal.
pub proof fn never_across_sessions<S>(message: Outbound, a: Client<S>, b: Client<S>)
    requires
        message.session is Some,
    ensures
        message.goes_to(a) ==> a.session_id == message.session,
        message.goes_to(a) && message.goes_to(b) ==> a.session_id == b.session_id,
{
}

/// A client that is not yet bound receives only messages without a principal.
pub proof fn unbound_gets_only_system_events<S>(message: Outbound, client: Client<S>)
    requires
        client.principal is None,
        message.goes_to(client),
    ensures
        message.target is None,
{
}

/// Only chat responses are routed by session: anything else reaches every
/// client of its principal, whatever session that client is on and also where
/// it is on none, and a system event reaches every client.
pub proof fn others_route_by_principal_alone<S>(message: Polled, client: Client<S>)
    requires
        message.topic != crate::topics::CHAT_RESPONSE_TOPIC@,
    ensures
        message.outbound() matches Some(m) ==> (m.goes_to(client) <==> message.target is None
            || client.principal == message.target),
{
}

/// `a` comes before `b`: an earlier client, or an earlier message to the same.
pub open spec fn precedes(a: Delivery, b: Delivery) -> bool {
    a.client < b.client || (a.client == b.client && a.message < b.message)
}

/// A send is due exactly where the client is not dead and the message goes to it.
pub open spec fn is_due<S>(
    clients: Seq<Client<S>>,
    dead: Seq<usize>,
    messages: Seq<Outbound>,
    d: Delivery,
) -> bool {
    &&& d.client < clients.len()
    &&& d.message < messages.len()
    &&& !dead.contains(d.client)
    &&& messages[d.message as int].goes_to(clients[d.client as int])
}

/// What [`due_to`] lists.
proof fn due_to_lists<S>(client: Client<S>, i: usize, messages: Seq<Outbound>, n: nat)
    requires
        n <= messages.len() <= usize::MAX,
    ensures
        forall|d: Delivery|
            #[trigger] due_to(client, i, messages, n).contains(d) <==> d.client == i && d.message < n
                && messages[d.message as int].goes_to(client),
        forall|j: int, k: int|
            0 <= j < k < due_to(client, i, messages, n).len() ==> precedes(
                #[trigger] due_to(client, i, messages, n)[j],
                #[trigger] due_to(client, i, messages, n)[k],
            ),
    decreases n,
{
    if n > 0 {
        due_to_lists(client, i, messages, (n - 1) as nat);
        let list = due_to(client, i, messages, n);
        let head = due_to(client, i, messages, (n - 1) as nat);
        let new = Delivery { client: i, message: (n - 1) as usize };
        if messages[n - 1].goes_to(client) {
            assert(list == head.push(new));
            assert forall|d: Delivery| list.contains(d) <==> d.client == i && d.message < n
                && messages[d.message as int].goes_to(client) by {
                if list.contains(d) && d != new {
                    let j = choose|j: int| 0 <= j < list.len() && list[j] == d;
                    assert(head[j] == d);
                    assert(head.contains(d));
                }
                if d == new {
                    assert(list[list.len() - 1] == d);
                } else if d.client == i && d.message < n && messages[d.message as int].goes_to(
                    client,
                ) {
                    assert(head.contains(d));
                    let j = choose|j: int| 0 <= j < head.len() && head[j] == d;
                    assert(list[j] == d);
                }
            }
            assert forall|j: int, k: int| 0 <= j < k < list.len() implies precedes(
                #[trigger] list[j],
                #[trigger] list[k],
            ) by {
                assert(head.contains(head[j]));
                if k < head.len() {
                    assert(precedes(head[j], head[k]));
                }
            }
        }
    }
}

/// What [`due`] lists from the first `n` clients.
proof fn due_lists<S>(
    clients: Seq<Client<S>>,
    dead: Seq<usize>,
    messages: Seq<Outbound>,
    n: nat,
)
    requires
        n <= clients.len() <= usize::MAX,
        messages.len() <= usize::MAX,
    ensures
        forall|d: Delivery|
            #[trigger] due(clients, dead, messages, n).contains(d) <==> d.client < n && is_due(
                clients,
                dead,
                messages,
                d,
            ),
        forall|j: int, k: int|
            0 <= j < k < due(clients, dead, messages, n).len() ==> precedes(
                #[trigger] due(clients, dead, messages, n)[j],
                #[trigger] due(clients, dead, messages, n)[k],
            ),
    decreases n,
{
    if n > 0 {
        due_lists(clients, dead, messages, (n - 1) as nat);
        let i = (n - 1) as usize;
        let head = due(clients, dead, messages, (n - 1) as nat);
        let list = due(clients, dead, messages, n);
        if !dead.contains(i) {
            let tail = due_to(clients[n - 1], i, messages, messages.len());
            due_to_lists(clients[n - 1], i, messages, messages.len());
            assert(list == head + tail);
            assert(i as int == n - 1);
            assert forall|d: Delivery|
                list.contains(d) <==> d.client < n && is_due(clients, dead, messages, d) by {
                if list.contains(d) {
                    let j = choose|j: int| 0 <= j < list.len() && list[j] == d;
                    if j < head.len() {
                        assert(head[j] == d);
                        assert(head.contains(d));
                    } else {
                        assert(tail[j - head.len()] == d);
                        assert(tail.contains(d));
                    }
                }
                if d.client < n && is_due(clients, dead, messages, d) {
                    if d.client == i {
                        assert(tail.contains(d));
                        let j = choose|j: int| 0 <= j < tail.len() && tail[j] == d;
                        assert(list[head.len() + j] == d);
                    } else {
                        assert(head.contains(d));
                        let j = choose|j: int| 0 <= j < head.len() && head[j] == d;
                        assert(list[j] == d);
                    }
                }
            }
            assert forall|j: int, k: int| 0 <= j < k < list.len() implies precedes(
                #[trigger] list[j],
                #[trigger] list[k],
            ) by {
                if k < head.len() {
                    assert(precedes(head[j], head[k]));
                } else if j < head.len() {
                    assert(head.contains(head[j]));
                    assert(tail.contains(tail[k - head.len()]));
                } else {
                    assert(precedes(tail[j - head.len()], tail[k - head.len()]));
                }
            }
        }
    }
}

/// A broadcast sends each message to each live client whose gates it clears,
/// exactly once, to no other client, and to each client in the order of the
/// messages.
pub proof fn broadcast_is_exact<S>(
    clients: Seq<Client<S>>,
    dead: Seq<usize>,
    messages: Seq<Outbound>,
)
    requires
        clients.len() <= usize::MAX,
        messages.len() <= usize::MAX,
    ensures
        forall|d: Delivery|
            #[trigger] due(clients, dead, messages, clients.len()).contains(d) <==> is_due(
                clients,
                dead,
                messages,
                d,
            ),
        forall|j: int, k: int|
            0 <= j < k < due(clients, dead, messages, clients.len()).len() ==> precedes(
                #[trigger] due(clients, dead, messages, clients.len())[j],
                #[trigger] due(clients, dead, messages, clients.len())[k],
            ),
{
    due_lists(clients, dead, messages, clients.len());
}

/// The outbound messages of a poll are its encodable messages in the order of the
/// poll, each once.
pub proof fn outbound_keeps_the_order_of_the_poll(messages: Seq<Polled>)
    ensures
        outbound_of(messages) == messages.filter(|m: Polled| m.outbound() is Some).map_values(
            |m: Polled| m.outbound()->0,
        ),
    decreases messages.len(),
{
    let encodable = |m: Polled| m.outbound() is Some;
    let encoded = |m: Polled| m.outbound()->0;
    reveal(Seq::filter);
    if messages.len() > 0 {
        let head = messages.drop_last();
        outbound_keeps_the_order_of_the_poll(head);
        if encodable(messages.last()) {
            assert(head.filter(encodable).push(messages.last()).map_values(encoded)
                =~= head.filter(encodable).map_values(encoded).push(encoded(messages.last())));
        }
    }
    assert(outbound_of(messages) =~= messages.filter(encodable).map_values(encoded));
}

/// The places in a poll from which its outbound messages come, one for each and in
/// the same order: they ascend, each outbound message is that of the message at
/// its place, and no other place has one.
pub proof fn where_outbound_messages_come_from(messages: Seq<Polled>) -> (places: Seq<int>)
    ensures
        places.len() == outbound_of(messages).len(),
        forall|j: int|
            0 <= j < places.len() ==> 0 <= #[trigger] places[j] < messages.len()
                && messages[places[j]].outbound() == Some(outbound_of(messages)[j]),
        forall|i: int, j: int|
            0 <= i < j < places.len() ==> #[trigger] places[i] < #[trigger] places[j],
        forall|k: int|
            0 <= k < messages.len() && #[trigger] messages[k].outbound() is Some
                ==> places.contains(k),
    decreases messages.len(),
{
    if messages.len() == 0 {
        seq![]
    } else {
        let head = messages.drop_last();
        let last = messages.len() - 1;
        let before = where_outbound_messages_come_from(head);
        let places = if messages[last].outbound() is Some {
            before.push(last)
        } else {
            before
        };
        assert forall|j: int| 0 <= j < places.len() implies 0 <= #[trigger] places[j]
            < messages.len() && messages[places[j]].outbound() == Some(
            outbound_of(messages)[j],
        ) by {
            if j < before.len() {
                assert(places[j] == before[j]);
                assert(head[before[j]] == messages[before[j]]);
            }
        }
        assert forall|i: int, j: int| 0 <= i < j < places.len() implies #[trigger] places[i]
            < #[trigger] places[j] by {
            assert(places[i] == before[i]);
            if j < before.len() {
                assert(places[j] == before[j]);
            }
        }
        assert forall|k: int|
            0 <= k < messages.len() && #[trigger] messages[k].outbound() is Some implies
            places.contains(k) by {
            if k == last {
                assert(places[places.len() - 1] == k);
            } else {
                assert(head[k].outbound() is Some);
                let j = choose|j: int| 0 <= j < before.len() && before[j] == k;
                assert(places[j] == k);
            }
        }
        places
    }
}

/// What goes out for a polled message: the bytes of an object with just three
/// fields, which hold the topic, the payload and the source id. The payload is what
/// its text parses to, and the text itself where it does not parse. The message
/// keeps the principal it is attributed to, and a chat response is scoped to the
/// session that its payload names.
pub proof fn what_goes_out_for_a_message(message: Polled)
    ensures
        ({
            let payload = match json_of_text(message.payload) {
                Some(value) => value,
                None => Json::String(message.payload),
            };
            let wire = Json::Object(
                Map::empty().insert("topic"@, Json::String(message.topic)).insert(
                    "payload"@,
                    payload,
                ).insert("source_id"@, Json::String(message.source_id)),
            );
            match json_encoding(wire) {
                Some(bytes) => message.outbound() == Some(
                    Outbound {
                        bytes,
                        target: message.target,
                        session: if message.topic == "agent.v1.response"@ {
                            payload.text_field("session_id"@)
                        } else {
                            None
                        },
                    },
                ),
                None => message.outbound() is None,
            }
        }),
{
}

/// A chat response whose payload names a session goes out scoped to that session,
/// and so to a client only where that client is on it.
pub proof fn chat_responses_reach_their_session_only<S>(
    message: Polled,
    payload: Json,
    session: Seq<char>,
    client: Client<S>,
)
    requires
        message.topic == "agent.v1.response"@,
        json_of_text(message.payload) == Some(payload),
        payload.text_field("session_id"@) == Some(session),
    ensures
        message.outbound() matches Some(m) ==> m.session == Some(session),
        message.outbound() matches Some(m) ==> (m.goes_to(client) ==> client.session_id == Some(
            session,
        )),
        message.outbound() matches Some(m) ==> (client.session_id == Some(session) && (
        message.target is None || client.principal == message.target) ==> m.goes_to(client)),
{
}

/// A message goes to a client exactly when the client has each key that the
/// message has: its principal, and its session.
pub proof fn who_gets_a_message<S>(message: Outbound, client: Client<S>)
    ensures
        message.goes_to(client) <==> {
            &&& message.target is None || client.principal == message.target
            &&& message.session is None || client.session_id == message.session
        },
        delivers(message.target, message.session, client.principal, client.session_id)
            == message.goes_to(client),
{
}

/// The sends that are due are those of every message to every client that is not
/// dead and has the message's keys: all of them, and no others. They come client by
/// client, and to each client in the order of the messages.
pub proof fn what_is_due_to_whom<S>(
    clients: Seq<Client<S>>,
    dead: Seq<usize>,
    messages: Seq<Outbound>,
)
    requires
        clients.len() <= usize::MAX,
        messages.len() <= usize::MAX,
    ensures
        forall|d: Delivery|
            #[trigger] due(clients, dead, messages, clients.len()).contains(d) <==> {
                &&& d.client < clients.len()
                &&& d.message < messages.len()
                &&& !dead.contains(d.client)
                &&& messages[d.message as int].target is None
                    || clients[d.client as int].principal == messages[d.message as int].target
                &&& messages[d.message as int].session is None
                    || clients[d.client as int].session_id == messages[d.message as int].session
            },
        forall|j: int, k: int|
            0 <= j < k < due(clients, dead, messages, clients.len()).len() ==> {
                let a = #[trigger] due(clients, dead, messages, clients.len())[j];
                let b = #[trigger] due(clients, dead, messages, clients.len())[k];
                a.client < b.client || (a.client == b.client && a.message < b.message)
            },
{
    broadcast_is_exact(clients, dead, messages);
    let plan = due(clients, dead, messages, clients.len());
    assert forall|d: Delivery| #[trigger] plan.contains(d) <==> {
        &&& d.client < clients.len()
        &&& d.message < messages.len()
        &&& !dead.contains(d.client)
        &&& messages[d.message as int].target is None || clients[d.client as int].principal
            == messages[d.message as int].target
        &&& messages[d.message as int].session is None || clients[d.client as int].session_id
            == messages[d.message as int].session
    } by {
        assert(plan.contains(d) <==> is_due(clients, dead, messages, d));
    }
    assert forall|j: int, k: int| 0 <= j < k < plan.len() implies {
        let a = #[trigger] plan[j];
        let b = #[trigger] plan[k];
        a.client < b.client || (a.client == b.client && a.message < b.message)
    } by {
        assert(precedes(plan[j], plan[k]));
    }
}

/// A message is routed by the principal that it is attributed to, whether that is
/// verified or claimed; a system event has none.
pub proof fn attribution_names_the_principal(attribution: PrincipalAttribution, p: String)
    ensures
        attribution == PrincipalAttribution::Verified(p) ==> attribution@ == Some(p@),
        attribution == PrincipalAttribution::Claimed(p) ==> attribution@ == Some(p@),
        attribution == PrincipalAttribution::System ==> attribution@ is None,
{
}

/// Messages are known by their texts, their bytes and whom they are for, and a
/// list of them, or of clients, by its items in order.
pub proof fn messages_keep_their_values<S>(
    polled: Seq<Message>,
    outbound: Seq<OutboundMessage>,
    clients: Seq<ProxyClient<S>>,
    i: int,
)
    ensures
        polled_views(polled).len() == polled.len(),
        0 <= i < polled.len() ==> polled_views(polled)[i] == (Polled {
            topic: polled[i].topic@,
            payload: polled[i].payload@,
            source_id: polled[i].source_id@,
            target: polled[i].principal@,
        }),
        0 <= i < polled.len() ==> polled_views(polled)[i] == polled[i]@,
        outbound_views(outbound).len() == outbound.len(),
        0 <= i < outbound.len() ==> outbound_views(outbound)[i] == (Outbound {
            bytes: outbound[i].bytes@,
            target: opt_string(outbound[i].target),
            session: opt_string(outbound[i].session),
        }),
        0 <= i < outbound.len() ==> outbound_views(outbound)[i] == outbound[i]@,
        client_views(clients).len() == clients.len(),
        0 <= i < clients.len() ==> client_views(clients)[i] == clients[i]@,
{
}

} // verus!
