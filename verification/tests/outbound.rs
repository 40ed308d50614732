use cli_proxy::client::ProxyClient;
use cli_proxy::outbound::{
    addressed, broadcast_poll_messages, outbound_message, payload_value, plan_deliveries, wire_value, Delivery, Message,
    OutboundMessage, PollResult, PrincipalAttribution,
};
use serde_json::Value;

fn client(principal: Option<&str>, session: Option<&str>) -> ProxyClient<u8> {
    let mut client = ProxyClient::new(0u8);
    client.principal = principal.map(str::to_string);
    client.session_id = session.map(str::to_string);
    client
}

fn message(topic: &str, payload: &str, principal: PrincipalAttribution) -> Message {
    Message {
        topic: topic.to_string(),
        payload: payload.to_string(),
        source_id: "src-1".to_string(),
        principal,
    }
}

fn outgoing(target: Option<&str>, session: Option<&str>) -> OutboundMessage {
    OutboundMessage {
        bytes: vec![1],
        target: target.map(str::to_string),
        session: session.map(str::to_string),
    }
}

#[test]
fn wire_object_holds_topic_payload_and_source() {
    let payload: Value = serde_json::from_str(r#"{"a":1}"#).unwrap();
    let wire = wire_value("t.v1", payload, "src-1");
    assert_eq!(
        wire.to_string(),
        r#"{"payload":{"a":1},"source_id":"src-1","topic":"t.v1"}"#
    );
}

#[test]
fn json_payload_is_embedded() {
    let out = outbound_message(&message(
        "agent.v1.response",
        r#"{"session_id":"S1","text":"hi"}"#,
        PrincipalAttribution::Verified("alice".to_string()),
    ))
    .unwrap();
    assert_eq!(
        out.bytes,
        br#"{"payload":{"session_id":"S1","text":"hi"},"source_id":"src-1","topic":"agent.v1.response"}"#
    );
    assert_eq!(out.target.as_deref(), Some("alice"));
    assert_eq!(out.session.as_deref(), Some("S1"));
}

#[test]
fn other_payload_is_sent_as_a_string() {
    let out = outbound_message(&message(
        "agent.v1.response",
        "plain \"text\"",
        PrincipalAttribution::System,
    ))
    .unwrap();
    assert_eq!(
        out.bytes,
        br#"{"payload":"plain \"text\"","source_id":"src-1","topic":"agent.v1.response"}"#
    );
    assert_eq!(out.target, None);
    assert_eq!(out.session, None);
}

#[test]
fn reply_with_session_id_is_not_scoped() {
    let out = outbound_message(&message(
        "session.v1.response.create.abc",
        r#"{"session_id":"S1"}"#,
        PrincipalAttribution::Claimed("bob".to_string()),
    ))
    .unwrap();
    assert_eq!(out.target.as_deref(), Some("bob"));
    assert_eq!(out.session, None);
}

#[test]
fn plan_goes_client_by_client_and_skips_the_dead() {
    let clients = vec![
        client(Some("alice"), Some("S1")),
        client(None, None),
        client(Some("bob"), None),
        client(Some("alice"), Some("S2")),
    ];
    let messages = vec![
        outgoing(Some("alice"), None),
        outgoing(Some("alice"), Some("S2")),
        outgoing(None, None),
        outgoing(Some("carol"), None),
    ];
    let to = |client, message| Delivery { client, message };
    assert_eq!(
        plan_deliveries(&clients, &messages, &vec![]),
        vec![to(0, 0), to(0, 2), to(1, 2), to(2, 2), to(3, 0), to(3, 1), to(3, 2)]
    );
    assert_eq!(
        plan_deliveries(&clients, &messages, &vec![3, 0, 3]),
        vec![to(1, 2), to(2, 2)]
    );
    assert_eq!(plan_deliveries(&clients, &vec![], &vec![]), vec![]);
}

#[test]
fn broadcast_encodes_every_message_once_in_order() {
    let clients = vec![client(Some("alice"), None), client(Some("alice"), None)];
    let result = PollResult {
        messages: vec![
            message("a", "1", PrincipalAttribution::Verified("alice".to_string())),
            message("b", "2", PrincipalAttribution::Verified("bob".to_string())),
        ],
        dropped: 0,
    };
    let broadcast = broadcast_poll_messages(&clients, &result, &vec![]);
    assert_eq!(broadcast.messages.len(), 2);
    assert_eq!(
        broadcast.messages[0].bytes,
        br#"{"payload":1,"source_id":"src-1","topic":"a"}"#
    );
    assert_eq!(
        broadcast.messages[1].bytes,
        br#"{"payload":2,"source_id":"src-1","topic":"b"}"#
    );
    assert_eq!(
        broadcast.plan,
        vec![
            Delivery { client: 0, message: 0 },
            Delivery { client: 1, message: 0 },
        ]
    );
}

#[test]
fn loss_is_reported_with_messages_only() {
    let mut result = PollResult { messages: vec![], dropped: 3 };
    assert_eq!(result.loss_to_report(), None);
    result
        .messages
        .push(message("a", "1", PrincipalAttribution::System));
    assert_eq!(result.loss_to_report(), Some(3));
    result.dropped = 0;
    assert_eq!(result.loss_to_report(), None);
}

#[test]
fn payload_falls_back_to_its_text() {
    let parsed: Value = serde_json::from_str("[1]").unwrap();
    assert_eq!(payload_value(Some(parsed), "[1]").to_string(), "[1]");
    assert_eq!(payload_value(None, "[1").to_string(), "\"[1\"");
}

#[test]
fn message_is_addressed_by_attribution_and_payload() {
    let payload: Value = serde_json::from_str(r#"{"session_id":"S1"}"#).unwrap();
    let chat = message(
        "agent.v1.response",
        "",
        PrincipalAttribution::Claimed("bob".to_string()),
    );
    let out = addressed(&chat, &payload, vec![1, 2]);
    assert_eq!(out.bytes, vec![1, 2]);
    assert_eq!(out.target.as_deref(), Some("bob"));
    assert_eq!(out.session.as_deref(), Some("S1"));
    let other = message("registry.v1.response.x", "", PrincipalAttribution::System);
    let out = addressed(&other, &payload, vec![]);
    assert_eq!(out.target, None);
    assert_eq!(out.session, None);
}
