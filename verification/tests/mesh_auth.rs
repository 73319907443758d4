use mesh::auth::{
    bearer_token, constant_time_eq, mesh_auth_decision, request_mesh_token, AuthDecision,
};
use mesh::config::SecuritySection;

fn security(required: bool, token: Option<&str>) -> SecuritySection {
    SecuritySection {
        require_mesh_token: required,
        mesh_token: token.map(|t| t.to_string()),
    }
}

fn denied(decision: AuthDecision) -> (u16, String, String) {
    match decision {
        AuthDecision::Deny(reply) => {
            let error = reply.body.error.expect("a denial carries an error");
            assert!(reply.body.response.is_none());
            assert_eq!(reply.body.response_message, error.message);
            (reply.status, error.message, error.code)
        }
        AuthDecision::Allow => panic!("request should be denied"),
    }
}

#[test]
fn bearer_token_strips_prefix_and_whitespace() {
    assert_eq!(bearer_token("Bearer abc").as_deref(), Some("abc"));
    assert_eq!(bearer_token("Bearer   abc  ").as_deref(), Some("abc"));
    assert_eq!(bearer_token("Bearer    "), None);
    assert_eq!(bearer_token("bearer abc"), None);
    assert_eq!(bearer_token("Basic abc"), None);
    assert_eq!(bearer_token("Bearer"), None);
}

#[test]
fn request_token_falls_back_to_mesh_token_header() {
    assert_eq!(
        request_mesh_token(Some("Bearer one"), Some("two")).as_deref(),
        Some("one")
    );
    assert_eq!(
        request_mesh_token(Some("Basic one"), Some("  two ")).as_deref(),
        Some("two")
    );
    assert_eq!(request_mesh_token(None, Some("   ")), None);
    assert_eq!(request_mesh_token(None, None), None);
}

#[test]
fn constant_time_eq_compares_whole_inputs() {
    assert!(constant_time_eq(b"token", b"token"));
    assert!(!constant_time_eq(b"token", b"tokem"));
    assert!(!constant_time_eq(b"token", b"token2"));
    assert!(!constant_time_eq(b"", b"x"));
    assert!(constant_time_eq(b"", b""));
}

#[test]
fn auth_allows_everything_when_not_required() {
    assert!(matches!(
        mesh_auth_decision(&security(false, None), None, None),
        AuthDecision::Allow
    ));
}

#[test]
fn auth_allows_matching_token() {
    let s = security(true, Some("  test-mesh-token "));
    assert!(matches!(
        mesh_auth_decision(&s, Some("Bearer test-mesh-token"), None),
        AuthDecision::Allow
    ));
    assert!(matches!(
        mesh_auth_decision(&s, None, Some("test-mesh-token")),
        AuthDecision::Allow
    ));
}

#[test]
fn auth_refuses_missing_token() {
    let (status, message, code) =
        denied(mesh_auth_decision(&security(true, Some("test-mesh-token")), None, None));
    assert_eq!(status, 401);
    assert_eq!(message, "Mesh authentication token is required.");
    assert_eq!(code, "MESH_TOKEN_REQUIRED");
}

#[test]
fn auth_refuses_wrong_token() {
    let (status, message, code) = denied(mesh_auth_decision(
        &security(true, Some("test-mesh-token")),
        Some("Bearer other"),
        None,
    ));
    assert_eq!(status, 401);
    assert_eq!(message, "Invalid mesh authentication token.");
    assert_eq!(code, "INVALID_MESH_TOKEN");
}

#[test]
fn auth_refuses_everything_without_configured_token() {
    let (status, message, code) = denied(mesh_auth_decision(
        &security(true, Some("   ")),
        Some("Bearer anything"),
        None,
    ));
    assert_eq!(status, 500);
    assert_eq!(message, "Mesh token is not configured.");
    assert_eq!(code, "MESH_TOKEN_NOT_CONFIGURED");
}
