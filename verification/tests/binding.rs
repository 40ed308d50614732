use cli_proxy::binding::{
    decide_ingress, is_valid_principal, DropReason, IngressDecision, DEFAULT_PRINCIPAL,
};

// --- principal format validation ---

#[test]
fn valid_principals_accepted() {
    assert!(is_valid_principal("default"));
    assert!(is_valid_principal("alice"));
    assert!(is_valid_principal("user_01-A"));
    assert!(is_valid_principal("x")); // 1 char
    assert!(is_valid_principal(&"a".repeat(64))); // boundary: 64 chars
}

#[test]
fn invalid_principals_rejected() {
    assert!(!is_valid_principal("")); // empty
    assert!(!is_valid_principal(&"a".repeat(65))); // too long
    assert!(!is_valid_principal("has space"));
    assert!(!is_valid_principal("dot.sep"));
    assert!(!is_valid_principal("slash/x"));
    assert!(!is_valid_principal("emoji\u{1f600}"));
}

// --- ingress binding state machine ---

#[test]
fn first_message_with_valid_principal_binds() {
    assert_eq!(
        decide_ingress(None, Some("alice")),
        IngressDecision::Bind("alice".to_string())
    );
}

#[test]
fn first_message_without_principal_binds_default() {
    assert_eq!(
        decide_ingress(None, None),
        IngressDecision::Bind(DEFAULT_PRINCIPAL.to_string())
    );
}

#[test]
fn first_message_with_invalid_principal_drops_and_stays_unbound() {
    assert_eq!(
        decide_ingress(None, Some("bad principal")),
        IngressDecision::Drop {
            reason: DropReason::InvalidPrincipal("bad principal".to_string())
        }
    );
}

#[test]
fn bound_connection_without_principal_forwards_as_bound() {
    // Auto-attribution: un-stamped traffic rides the bound principal.
    assert_eq!(
        decide_ingress(Some("alice"), None),
        IngressDecision::ForwardAs("alice".to_string())
    );
}

#[test]
fn bound_connection_matching_principal_forwards() {
    assert_eq!(
        decide_ingress(Some("alice"), Some("alice")),
        IngressDecision::ForwardAs("alice".to_string())
    );
}

#[test]
fn bound_connection_conflicting_principal_drops_without_rebind() {
    // Conflict drops the message and yields no Bind/ForwardAs, so the
    // caller never mutates the binding.
    assert_eq!(
        decide_ingress(Some("alice"), Some("mallory")),
        IngressDecision::Drop {
            reason: DropReason::PrincipalConflict {
                bound: "alice".to_string(),
                claimed: "mallory".to_string(),
            }
        }
    );
}

#[test]
fn post_conflict_connection_still_forwards_as_original() {
    // After a conflict (binding unchanged), a subsequent matching/empty
    // message still forwards under the original principal.
    let binding = Some("alice");
    let _conflict = decide_ingress(binding, Some("mallory"));
    assert_eq!(
        decide_ingress(binding, None),
        IngressDecision::ForwardAs("alice".to_string())
    );
    assert_eq!(
        decide_ingress(binding, Some("alice")),
        IngressDecision::ForwardAs("alice".to_string())
    );
}
