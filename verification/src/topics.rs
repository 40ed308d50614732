//! Topics of the bus: which ones a client may publish to, and which ones the
//! proxy listens on.

use crate::text::{same, starts_with};
use vstd::prelude::*;

verus! {

/// Topic carrying a connection's chat input. The `session_id` on a *forwarded*
/// message of this topic is the authoritative source for which conversation the
/// connection is on (paired with [`CHAT_RESPONSE_TOPIC`]).
pub const CHAT_REQUEST_TOPIC: &'static str = "user.v1.prompt";

/// Topic carrying streamed chat responses: the only outbound topic that is
/// routed by session. Everything else routes by principal alone.
pub const CHAT_RESPONSE_TOPIC: &'static str = "agent.v1.response";

/// How many topics the proxy listens on.
pub const SUBSCRIPTIONS: usize = 12;

/// Exact topics a client may publish *through* the proxy to the internal bus.
///
/// `client.v1.connect` / `client.v1.disconnect` are deliberately absent: the
/// host emits them from the accept and drop path of the socket, and a copy sent
/// by a client would let an untrusted socket move the connection counter.
pub open spec fn allowed_exact() -> Seq<Seq<char>> {
    seq!["user.v1.prompt"@, "cli.v1.command.execute"@]
}

/// Topic prefixes a client is allowed to publish under. The trailing dot keeps
/// the bare prefix without a further segment blocked.
pub open spec fn allowed_prefixes() -> Seq<Seq<char>> {
    seq![
        "astrid.v1.request."@,
        "astrid.v1.admin."@,
        "astrid.v1.elicit.response."@,
        "astrid.v1.approval.response."@,
        "registry.v1.selection."@,
        "session.v1.request."@,
        "cli.v1.command.run."@,
    ]
}

/// Prefixes a client may never publish under, even where they fall under an
/// allowed prefix: admin responses originate in the kernel, and the
/// `astrid.v1.admin.` prefix is for requests.
pub open spec fn blocked_prefixes() -> Seq<Seq<char>> {
    seq!["astrid.v1.admin.response."@]
}

/// The topics the proxy listens on, in the order in which it polls them.
pub open spec fn subscribed() -> Seq<Seq<char>> {
    seq![
        "agent.v1.response"@,
        "astrid.v1.onboarding.required"@,
        "astrid.v1.elicit.*"@,
        "astrid.v1.approval"@,
        "astrid.v1.response.*"@,
        "astrid.v1.admin.response.*"@,
        "astrid.v1.capsules_loaded"@,
        "registry.v1.response.*"@,
        "registry.v1.active_model_changed"@,
        "registry.v1.selection.*"@,
        "session.v1.response.*"@,
        "cli.v1.command.result.*"@,
    ]
}

/// One of `prefixes` begins `topic`.
pub open spec fn under_any(prefixes: Seq<Seq<char>>, topic: Seq<char>) -> bool {
    exists|i: int| 0 <= i < prefixes.len() && (#[trigger] prefixes[i]).is_prefix_of(topic)
}

/// A client may publish to `topic`.
pub open spec fn allowed_topic(topic: Seq<char>) -> bool {
    &&& !under_any(blocked_prefixes(), topic)
    &&& allowed_exact().contains(topic) || under_any(allowed_prefixes(), topic)
}

/// The characters of each topic in a list.
pub open spec fn chars_of_each(topics: Seq<&'static str>) -> Seq<Seq<char>> {
    Seq::new(topics.len(), |i: int| topics[i]@)
}

/// Whether one of `prefixes` begins `topic`.
fn under_any_of(prefixes: &[&'static str], topic: &str) -> (r: bool)
    ensures
        r == under_any(chars_of_each(prefixes@), topic@),
{
    let ghost list = chars_of_each(prefixes@);
    let mut i: usize = 0;
    while i < prefixes.len()
        invariant
            i <= prefixes.len(),
            list == chars_of_each(prefixes@),
            forall|j: int| 0 <= j < i ==> !(#[trigger] list[j]).is_prefix_of(topic@),
        decreases prefixes.len() - i,
    {
        if starts_with(topic, prefixes[i]) {
            assert(list[i as int].is_prefix_of(topic@));
            return true;
        }
        i += 1;
    }
    false
}

/// Whether a client may publish to `topic`: it stands on the list of exact
/// topics or begins with an allowed prefix, and begins with no blocked one.
pub fn is_allowed_ingress_topic(topic: &str) -> (r: bool)
    ensures
        r == allowed_topic(topic@),
{
    let blocked: [&'static str; 1] = ["astrid.v1.admin.response."];
    let prefixes: [&'static str; 7] = [
        "astrid.v1.request.",
        "astrid.v1.admin.",
        "astrid.v1.elicit.response.",
        "astrid.v1.approval.response.",
        "registry.v1.selection.",
        "session.v1.request.",
        "cli.v1.command.run.",
    ];
    proof {
        assert(chars_of_each(blocked@) =~= blocked_prefixes());
        assert(chars_of_each(prefixes@) =~= allowed_prefixes());
        assert(allowed_exact()[0] == "user.v1.prompt"@);
        assert(allowed_exact()[1] == "cli.v1.command.execute"@);
    }
    if under_any_of(&blocked, topic) {
        return false;
    }
    same(topic, "user.v1.prompt") || same(topic, "cli.v1.command.execute") || under_any_of(
        &prefixes,
        topic,
    )
}

/// The topics to subscribe to. Only topics that the terminal interface consumes
/// stand here; pipeline events of the system are not forwarded to the socket.
pub fn subscription_topics() -> (r: [&'static str; 12])
    ensures
        chars_of_each(r@) == subscribed(),
{
    let topics: [&'static str; 12] = [
        "agent.v1.response",
        "astrid.v1.onboarding.required",
        "astrid.v1.elicit.*",
        "astrid.v1.approval",
        "astrid.v1.response.*",
        "astrid.v1.admin.response.*",
        "astrid.v1.capsules_loaded",
        "registry.v1.response.*",
        "registry.v1.active_model_changed",
        "registry.v1.selection.*",
        "session.v1.response.*",
        "cli.v1.command.result.*",
    ];
    assert(chars_of_each(topics@) =~= subscribed());
    topics
}

/// A client can publish to no topic of admin responses.
pub proof fn admin_responses_are_blocked(rest: Seq<char>)
    ensures
        !allowed_topic("astrid.v1.admin.response."@ + rest),
{
    let topic = "astrid.v1.admin.response."@ + rest;
    assert(blocked_prefixes()[0].is_prefix_of(topic));
}

/// Every other topic under `astrid.v1.admin.` is open to a client.
pub proof fn admin_requests_are_allowed(rest: Seq<char>)
    ensures
        allowed_topic("astrid.v1.admin."@ + rest) == !"response."@.is_prefix_of(rest),
{
    let admin = "astrid.v1.admin."@;
    let topic = admin + rest;
    assert(allowed_prefixes()[1].is_prefix_of(topic));
    let response = "astrid.v1.admin.response."@;
    reveal_strlit("astrid.v1.admin.");
    reveal_strlit("response.");
    reveal_strlit("astrid.v1.admin.response.");
    assert(response =~= admin + "response."@);
    if "response."@.is_prefix_of(rest) {
        assert(topic.subrange(0, response.len() as int) =~= response);
        assert(blocked_prefixes()[0].is_prefix_of(topic));
    } else if under_any(blocked_prefixes(), topic) {
        assert(response.is_prefix_of(topic));
        assert forall|i: int| 0 <= i < "response."@.len() implies rest[i] == "response."@[i] by {
            assert(response[admin.len() + i] == topic[admin.len() + i]);
        }
        assert("response."@ =~= rest.subrange(0, "response."@.len() as int));
    }
}

/// A client can publish to no topic of connection lifecycle, so it cannot forge
/// a connect or a disconnect.
pub proof fn lifecycle_topics_are_blocked(topic: Seq<char>)
    requires
        "client."@.is_prefix_of(topic),
    ensures
        !allowed_topic(topic),
{
    reveal_strlit("client.");
    reveal_strlit("user.v1.prompt");
    reveal_strlit("cli.v1.command.execute");
    reveal_strlit("astrid.v1.request.");
    reveal_strlit("astrid.v1.admin.");
    reveal_strlit("astrid.v1.elicit.response.");
    reveal_strlit("astrid.v1.approval.response.");
    reveal_strlit("registry.v1.selection.");
    reveal_strlit("session.v1.request.");
    reveal_strlit("cli.v1.command.run.");
    let head = topic.subrange(0, "client."@.len() as int);
    assert(head[0] == topic[0] && head[3] == topic[3]);
    assert(topic[0] == 'c' && topic[3] == 'e');
    if allowed_exact().contains(topic) {
        let i = choose|i: int| 0 <= i < allowed_exact().len() && allowed_exact()[i] == topic;
        assert(i == 0 || i == 1);
    }
    if under_any(allowed_prefixes(), topic) {
        let i = choose|i: int|
            0 <= i < allowed_prefixes().len() && (#[trigger] allowed_prefixes()[i]).is_prefix_of(
                topic,
            );
        let p = allowed_prefixes()[i];
        assert(p == topic.subrange(0, p.len() as int));
        assert(p[0] == topic[0] && p[3] == topic[3]);
        assert(i == 0 || i == 1 || i == 2 || i == 3 || i == 4 || i == 5 || i == 6);
    }
}

/// What a client may publish to: two topics as they are, and what begins with one
/// of seven prefixes, but nothing under the prefix of admin responses.
pub proof fn what_clients_may_publish_to(topic: Seq<char>)
    ensures
        allowed_topic(topic) <==> {
            &&& !"astrid.v1.admin.response."@.is_prefix_of(topic)
            &&& {
                ||| topic == "user.v1.prompt"@
                ||| topic == "cli.v1.command.execute"@
                ||| "astrid.v1.request."@.is_prefix_of(topic)
                ||| "astrid.v1.admin."@.is_prefix_of(topic)
                ||| "astrid.v1.elicit.response."@.is_prefix_of(topic)
                ||| "astrid.v1.approval.response."@.is_prefix_of(topic)
                ||| "registry.v1.selection."@.is_prefix_of(topic)
                ||| "session.v1.request."@.is_prefix_of(topic)
                ||| "cli.v1.command.run."@.is_prefix_of(topic)
            }
        },
{
    let prefixes = allowed_prefixes();
    let exact = allowed_exact();
    assert(blocked_prefixes()[0] == "astrid.v1.admin.response."@);
    assert(exact[0] == "user.v1.prompt"@ && exact[1] == "cli.v1.command.execute"@);
    assert(prefixes[0] == "astrid.v1.request."@ && prefixes[1] == "astrid.v1.admin."@);
    assert(prefixes[2] == "astrid.v1.elicit.response."@);
    assert(prefixes[3] == "astrid.v1.approval.response."@);
    assert(prefixes[4] == "registry.v1.selection."@ && prefixes[5] == "session.v1.request."@);
    assert(prefixes[6] == "cli.v1.command.run."@);
    if exact.contains(topic) {
        let i = choose|i: int| 0 <= i < exact.len() && exact[i] == topic;
        assert(i == 0 || i == 1);
    }
    if under_any(prefixes, topic) {
        let i = choose|i: int|
            0 <= i < prefixes.len() && (#[trigger] prefixes[i]).is_prefix_of(topic);
        assert(i == 0 || i == 1 || i == 2 || i == 3 || i == 4 || i == 5 || i == 6);
    }
}

/// The topics that are listened on, one by one and in order; the chat response is
/// the first.
pub proof fn what_is_listened_on(topics: Seq<&'static str>)
    requires
        chars_of_each(topics) == subscribed(),
    ensures
        SUBSCRIPTIONS == 12,
        topics.len() == 12,
        topics[0]@ == "agent.v1.response"@,
        topics[1]@ == "astrid.v1.onboarding.required"@,
        topics[2]@ == "astrid.v1.elicit.*"@,
        topics[3]@ == "astrid.v1.approval"@,
        topics[4]@ == "astrid.v1.response.*"@,
        topics[5]@ == "astrid.v1.admin.response.*"@,
        topics[6]@ == "astrid.v1.capsules_loaded"@,
        topics[7]@ == "registry.v1.response.*"@,
        topics[8]@ == "registry.v1.active_model_changed"@,
        topics[9]@ == "registry.v1.selection.*"@,
        topics[10]@ == "session.v1.response.*"@,
        topics[11]@ == "cli.v1.command.result.*"@,
        CHAT_RESPONSE_TOPIC@ == "agent.v1.response"@,
        CHAT_REQUEST_TOPIC@ == "user.v1.prompt"@,
{
    let list = chars_of_each(topics);
    assert(subscribed().len() == 12);
    assert(list.len() == topics.len());
    assert forall|i: int| 0 <= i < topics.len() implies topics[i]@ == #[trigger] list[i] by {}
    assert(list[0] == topics[0]@ && list[1] == topics[1]@ && list[2] == topics[2]@);
    assert(list[3] == topics[3]@ && list[4] == topics[4]@ && list[5] == topics[5]@);
    assert(list[6] == topics[6]@ && list[7] == topics[7]@ && list[8] == topics[8]@);
    assert(list[9] == topics[9]@ && list[10] == topics[10]@ && list[11] == topics[11]@);
}

} // verus!
