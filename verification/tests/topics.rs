use cli_proxy::topics::{
    is_allowed_ingress_topic, subscription_topics, CHAT_REQUEST_TOPIC, CHAT_RESPONSE_TOPIC,
    SUBSCRIPTIONS,
};

#[test]
fn exact_topics_are_allowed() {
    assert!(is_allowed_ingress_topic(CHAT_REQUEST_TOPIC));
    assert!(is_allowed_ingress_topic("user.v1.prompt"));
    assert!(is_allowed_ingress_topic("cli.v1.command.execute"));
}

#[test]
fn exact_topics_match_whole_only() {
    assert!(!is_allowed_ingress_topic("user.v1.prompt.more"));
    assert!(!is_allowed_ingress_topic("user.v1.promp"));
    assert!(!is_allowed_ingress_topic(""));
}

#[test]
fn prefixed_topics_are_allowed() {
    assert!(is_allowed_ingress_topic("astrid.v1.request.status"));
    assert!(is_allowed_ingress_topic("astrid.v1.admin.agent.list"));
    assert!(is_allowed_ingress_topic("astrid.v1.elicit.response.1"));
    assert!(is_allowed_ingress_topic("astrid.v1.approval.response.1"));
    assert!(is_allowed_ingress_topic("registry.v1.selection.model"));
    assert!(is_allowed_ingress_topic("session.v1.request.create"));
    assert!(is_allowed_ingress_topic("cli.v1.command.run.provider"));
}

#[test]
fn bare_prefix_without_segment_is_blocked() {
    assert!(!is_allowed_ingress_topic("cli.v1.command.run"));
    assert!(!is_allowed_ingress_topic("astrid.v1.admin"));
    assert!(is_allowed_ingress_topic("cli.v1.command.run."));
}

#[test]
fn admin_responses_are_blocked() {
    assert!(!is_allowed_ingress_topic("astrid.v1.admin.response."));
    assert!(!is_allowed_ingress_topic("astrid.v1.admin.response.agent.list"));
    // Not under the blocked prefix: the dot is missing.
    assert!(is_allowed_ingress_topic("astrid.v1.admin.response"));
    assert!(is_allowed_ingress_topic("astrid.v1.admin.responses.x"));
}

#[test]
fn lifecycle_topics_are_blocked() {
    assert!(!is_allowed_ingress_topic("client.v1.connect"));
    assert!(!is_allowed_ingress_topic("client.v1.disconnect"));
}

#[test]
fn outbound_only_topics_are_blocked() {
    assert!(!is_allowed_ingress_topic(CHAT_RESPONSE_TOPIC));
    assert!(!is_allowed_ingress_topic("session.v1.response.create.abc"));
}

#[test]
fn non_ascii_topics_are_blocked_or_pass_by_prefix() {
    assert!(!is_allowed_ingress_topic("\u{fc}ser.v1.prompt"));
    assert!(is_allowed_ingress_topic("astrid.v1.request.\u{1f600}"));
}

#[test]
fn subscriptions_are_polled_in_this_order() {
    let topics = subscription_topics();
    assert_eq!(topics.len(), SUBSCRIPTIONS);
    assert_eq!(topics[0], CHAT_RESPONSE_TOPIC);
    assert_eq!(
        topics,
        [
            "agent.v1.response",
            "astrid.v1.onboarding.required",
            "astrid.v1.elicit.*",
            "astrid.v1.approval",
            "astrid.v1.response.*",
            "astrid.v1.admin.response.*",
            "astrid.v1.capsules_loaded",
            "registry.v1.response.*",
            "registry.v1.active_model_changed",
            "registry.v1.selection.*",
            "session.v1.response.*",
            "cli.v1.command.result.*",
        ]
    );
}
