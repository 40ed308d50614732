use cli_proxy::binding::DropReason;
use cli_proxy::client::ProxyClient;
use cli_proxy::ingress::{handle_ingress, handle_message, IngressDisposition, IngressOutcome};
use serde_json::Value;

fn forwarded(outcome: &IngressOutcome) -> Option<(&str, String, &str)> {
    match &outcome.disposition {
        IngressDisposition::Forward { topic, payload, principal } => {
            Some((topic.as_str(), payload.to_string(), principal.as_str()))
        }
        _ => None,
    }
}

#[test]
fn malformed_bytes_change_nothing() {
    for bytes in [&b"not json"[..], b"", b"{\"principal\":\"alice\"", b"\xff"] {
        let outcome = handle_ingress(bytes, None);
        assert!(matches!(outcome.disposition, IngressDisposition::Malformed));
        assert_eq!(outcome.newly_bound, None);
        assert_eq!(outcome.session_id, None);
    }
}

#[test]
fn first_prompt_binds_moves_session_and_forwards() {
    let outcome = handle_ingress(
        br#"{"principal":"alice","topic":"user.v1.prompt","payload":{"text":"hi","session_id":"S1"}}"#,
        None,
    );
    assert_eq!(outcome.newly_bound.as_deref(), Some("alice"));
    assert_eq!(outcome.session_id.as_deref(), Some("S1"));
    assert_eq!(
        forwarded(&outcome),
        Some((
            "user.v1.prompt",
            "{\"session_id\":\"S1\",\"text\":\"hi\"}".to_string(),
            "alice"
        ))
    );
}

#[test]
fn message_without_principal_binds_default() {
    let outcome = handle_ingress(br#"{"topic":"astrid.v1.request.x","payload":null}"#, None);
    assert_eq!(outcome.newly_bound.as_deref(), Some("default"));
    assert_eq!(
        forwarded(&outcome),
        Some(("astrid.v1.request.x", "null".to_string(), "default"))
    );
}

#[test]
fn principal_that_is_no_string_counts_as_absent() {
    let outcome = handle_ingress(br#"{"principal":5}"#, None);
    assert_eq!(outcome.newly_bound.as_deref(), Some("default"));
    assert!(matches!(outcome.disposition, IngressDisposition::NoBody));
}

#[test]
fn json_that_is_no_object_binds_default_and_forwards_nothing() {
    let outcome = handle_ingress(b"[1,2]", None);
    assert_eq!(outcome.newly_bound.as_deref(), Some("default"));
    assert!(matches!(outcome.disposition, IngressDisposition::NoBody));
}

#[test]
fn invalid_principal_is_dropped() {
    let outcome = handle_ingress(
        br#"{"principal":"bad principal","topic":"user.v1.prompt","payload":{"session_id":"S1"}}"#,
        None,
    );
    assert_eq!(outcome.newly_bound, None);
    assert_eq!(outcome.session_id, None);
    assert!(matches!(
        outcome.disposition,
        IngressDisposition::Dropped { reason: DropReason::InvalidPrincipal(ref p) } if p == "bad principal"
    ));
}

#[test]
fn conflicting_principal_is_dropped() {
    let outcome = handle_ingress(
        br#"{"principal":"mallory","topic":"user.v1.prompt","payload":{"session_id":"S1"}}"#,
        Some("alice"),
    );
    assert_eq!(outcome.newly_bound, None);
    assert_eq!(outcome.session_id, None);
    match outcome.disposition {
        IngressDisposition::Dropped { reason } => assert_eq!(
            reason,
            DropReason::PrincipalConflict {
                bound: "alice".to_string(),
                claimed: "mallory".to_string(),
            }
        ),
        _ => panic!("not dropped"),
    }
}

#[test]
fn missing_body_binds_only() {
    for bytes in [
        &br#"{"principal":"alice"}"#[..],
        br#"{"principal":"alice","topic":"user.v1.prompt"}"#,
        br#"{"principal":"alice","payload":{"session_id":"S1"}}"#,
        br#"{"principal":"alice","topic":7,"payload":{"session_id":"S1"}}"#,
    ] {
        let outcome = handle_ingress(bytes, None);
        assert_eq!(outcome.newly_bound.as_deref(), Some("alice"));
        assert_eq!(outcome.session_id, None);
        assert!(matches!(outcome.disposition, IngressDisposition::NoBody));
    }
}

#[test]
fn blocked_topic_binds_but_neither_forwards_nor_moves_session() {
    let outcome = handle_ingress(
        br#"{"principal":"alice","topic":"astrid.v1.admin.response.x","payload":{"session_id":"S1"}}"#,
        None,
    );
    assert_eq!(outcome.newly_bound.as_deref(), Some("alice"));
    assert_eq!(outcome.session_id, None);
    assert!(matches!(
        outcome.disposition,
        IngressDisposition::BlockedTopic { ref topic } if topic == "astrid.v1.admin.response.x"
    ));
}

#[test]
fn later_of_two_equal_keys_counts() {
    let outcome = handle_ingress(br#"{"principal":"alice","principal":"bob"}"#, None);
    assert_eq!(outcome.newly_bound.as_deref(), Some("bob"));
}

#[test]
fn parsed_message_is_handled_like_its_bytes() {
    let text = r#"{"topic":"session.v1.request.create","payload":{"session_id":"S1"}}"#;
    let message: Value = serde_json::from_str(text).unwrap();
    let outcome = handle_message(&message, Some("alice"));
    assert_eq!(outcome.newly_bound, None);
    // Not a prompt: the session stays.
    assert_eq!(outcome.session_id, None);
    assert_eq!(
        forwarded(&outcome),
        Some((
            "session.v1.request.create",
            "{\"session_id\":\"S1\"}".to_string(),
            "alice"
        ))
    );
}

#[test]
fn connection_keeps_its_principal_for_life() {
    let mut client = ProxyClient::new(1u8);
    assert_eq!(client.principal, None);
    client.receive(br#"{"principal":"bad principal"}"#);
    assert_eq!(client.principal, None);
    client.receive(b"garbage");
    assert_eq!(client.principal, None);
    client.receive(br#"{"principal":"alice"}"#);
    assert_eq!(client.principal.as_deref(), Some("alice"));
    client.receive(br#"{"principal":"mallory"}"#);
    client.receive(br#"{"topic":"user.v1.prompt","payload":{}}"#);
    client.receive(b"garbage");
    assert_eq!(client.principal.as_deref(), Some("alice"));
    assert_eq!(client.stream, 1);
}

#[test]
fn connection_tracks_the_latest_session() {
    let mut client = ProxyClient::new(());
    client.receive(br#"{"topic":"session.v1.request.create","payload":{"session_id":"S0"}}"#);
    assert_eq!(client.session_id, None);
    client.receive(br#"{"topic":"user.v1.prompt","payload":{"session_id":"S1"}}"#);
    assert_eq!(client.session_id.as_deref(), Some("S1"));
    client.receive(br#"{"topic":"user.v1.prompt","payload":{"text":"hi"}}"#);
    assert_eq!(client.session_id.as_deref(), Some("S1"));
    // A dropped prompt does not move the session.
    client.receive(
        br#"{"principal":"mallory","topic":"user.v1.prompt","payload":{"session_id":"S9"}}"#,
    );
    assert_eq!(client.session_id.as_deref(), Some("S1"));
    let outcome =
        client.receive(br#"{"topic":"user.v1.prompt","payload":{"session_id":"S2"}}"#);
    assert_eq!(client.session_id.as_deref(), Some("S2"));
    assert_eq!(forwarded(&outcome).map(|f| f.2), Some("default"));
}
