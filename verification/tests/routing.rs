use cli_proxy::outbound::{attribution_target, should_deliver, PrincipalAttribution};
use cli_proxy::session::{ingress_session_bind, outbound_session_scope, payload_session_id};
use cli_proxy::topics::{CHAT_REQUEST_TOPIC, CHAT_RESPONSE_TOPIC};
use serde_json::Value;

fn json(text: &str) -> Value {
    serde_json::from_str(text).unwrap()
}

// --- outbound demux decision (principal axis) ---

#[test]
fn principaled_message_delivers_only_to_matching_bound_client() {
    assert!(should_deliver(Some("alice"), None, Some("alice"), None));
    assert!(!should_deliver(Some("alice"), None, Some("bob"), None));
}

#[test]
fn principaled_message_not_delivered_to_unbound_client() {
    assert!(!should_deliver(Some("alice"), None, None, None));
}

#[test]
fn unprincipaled_message_delivers_to_everyone() {
    assert!(should_deliver(None, None, Some("alice"), None));
    assert!(should_deliver(None, None, None, None)); // even an unbound client
}

// --- outbound demux decision (session axis: multi-session cross-talk) ---

#[test]
fn session_scoped_message_delivers_only_to_matching_session() {
    assert!(should_deliver(
        Some("default"),
        Some("S1"),
        Some("default"),
        Some("S1")
    ));
}

#[test]
fn session_scoped_message_not_delivered_across_sessions_of_same_principal() {
    // No cross-talk: same principal, different session -> dropped.
    assert!(!should_deliver(
        Some("default"),
        Some("S1"),
        Some("default"),
        Some("S2")
    ));
}

#[test]
fn session_scoped_message_not_delivered_to_sessionless_client() {
    // A connection that has not started a chat session receives no
    // session-scoped traffic.
    assert!(!should_deliver(
        Some("default"),
        Some("S1"),
        Some("default"),
        None
    ));
}

#[test]
fn non_session_message_keeps_principal_only_routing() {
    // Correlated/system responses (no session_id) reach every same-principal
    // connection regardless of its session; a different principal is still
    // excluded.
    assert!(should_deliver(
        Some("default"),
        None,
        Some("default"),
        Some("S1")
    ));
    assert!(should_deliver(Some("default"), None, Some("default"), None));
    assert!(!should_deliver(
        Some("default"),
        None,
        Some("alice"),
        Some("S1")
    ));
}

// --- payload session extraction ---

#[test]
fn payload_session_id_extracts_top_level_string() {
    let v = json(r#"{ "type": "agent_response", "text": "hi", "is_final": true, "session_id": "S1" }"#);
    assert_eq!(payload_session_id(&v), Some("S1"));
}

#[test]
fn payload_session_id_none_when_absent_or_not_a_string() {
    assert_eq!(payload_session_id(&json(r#"{"text": "hi"}"#)), None);
    assert_eq!(
        payload_session_id(&json(r#"{"session_id": 5}"#)),
        None
    );
    assert_eq!(
        payload_session_id(&json(r#""not-an-object""#)),
        None
    );
}

// --- chat-topic session scoping (bootstrap + spoof safety) ---

#[test]
fn ingress_binds_session_only_from_chat_prompt() {
    let with_sid = json(r#"{"type": "user_input", "session_id": "S1"}"#);
    assert_eq!(
        ingress_session_bind(CHAT_REQUEST_TOPIC, &with_sid),
        Some("S1")
    );
    // A non-prompt topic never retargets the connection's session, even when
    // its payload carries a session_id (same-principal spoof guard).
    assert_eq!(
        ingress_session_bind("session.v1.request.create", &with_sid),
        None
    );
    assert_eq!(
        ingress_session_bind("astrid.v1.admin.agent.list", &with_sid),
        None
    );
    // A prompt with no session_id leaves the binding unchanged.
    assert_eq!(
        ingress_session_bind(
            CHAT_REQUEST_TOPIC,
            &json(r#"{"type": "user_input"}"#)
        ),
        None
    );
}

#[test]
fn outbound_scopes_session_only_for_chat_response() {
    let with_sid = json(r#"{"type": "agent_response", "session_id": "S1"}"#);
    assert_eq!(
        outbound_session_scope(CHAT_RESPONSE_TOPIC, &with_sid),
        Some("S1")
    );
    // A correlated reply that happens to carry a session_id is NOT
    // session-gated.
    assert_eq!(
        outbound_session_scope("session.v1.response.create.abc", &with_sid),
        None
    );
    assert_eq!(
        outbound_session_scope("registry.v1.response.x", &with_sid),
        None
    );
    // A chat response without a session_id routes by principal alone.
    assert_eq!(
        outbound_session_scope(
            CHAT_RESPONSE_TOPIC,
            &json(r#"{"type": "agent_response"}"#)
        ),
        None
    );
}

#[test]
fn correlated_reply_with_session_id_is_not_dropped_for_unbound_session_client() {
    // The bootstrap case: a correlated /
    // session-creation reply carries a session_id, but the requesting
    // connection has not bound a session yet (client_session = None). Because
    // the reply is not chat-scoped, its outbound scope is None, so the
    // principal gate alone governs and it is delivered (not dropped).
    let reply = json(r#"{"type": "session_created", "session_id": "S_new"}"#);
    let scope = outbound_session_scope("session.v1.response.create.abc", &reply);
    assert_eq!(scope, None);
    assert!(should_deliver(
        Some("default"),
        scope,
        Some("default"),
        None
    ));
}

// --- attribution target mapping ---

#[test]
fn attribution_target_extracts_principal_for_verified_and_claimed() {
    assert_eq!(
        attribution_target(&PrincipalAttribution::Verified("alice".to_string())),
        Some("alice")
    );
    assert_eq!(
        attribution_target(&PrincipalAttribution::Claimed("bob".to_string())),
        Some("bob")
    );
}

#[test]
fn attribution_target_is_none_for_system() {
    assert_eq!(attribution_target(&PrincipalAttribution::System), None);
}
