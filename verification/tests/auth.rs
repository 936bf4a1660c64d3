use mgba_gateway::auth::{AclService, AuthError, Permission, PrincipalId, Role, SessionId};

#[test]
fn role_matrix_matches_session_acl_contract() {
    assert!(Role::Viewer.allows(Permission::ViewStream));
    assert!(Role::Viewer.allows(Permission::ViewInputLogs));
    assert!(!Role::Viewer.allows(Permission::SendKey));
    assert!(!Role::Viewer.allows(Permission::ReadMemory));
    assert!(Role::Controller.allows(Permission::SendKey));
    assert!(Role::Controller.allows(Permission::ReadMemory));
    assert!(!Role::Controller.allows(Permission::AdminLifecycle));
    assert!(Role::Admin.allows(Permission::AdminLifecycle));
}

#[test]
fn acl_is_session_scoped_and_deny_by_default() {
    let mut acl = AclService::new();
    let principal = PrincipalId::new("alice");
    let token = acl.issue_principal_token(principal.clone()).token;
    let session_a = SessionId::new("session-a");
    let session_b = SessionId::new("session-b");
    acl.grant(principal.clone(), session_a.clone(), Role::Controller);

    assert_eq!(
        acl.check_token(&token, &session_a, Permission::SendKey),
        Ok(principal.clone())
    );
    assert_eq!(
        acl.check_token(&token, &session_b, Permission::ViewStream),
        Err(AuthError::MissingGrant)
    );
    assert_eq!(
        acl.check_token("bad", &session_a, Permission::SendKey),
        Err(AuthError::InvalidToken)
    );
}

#[test]
fn revoked_grant_fails_closed() {
    let mut acl = AclService::new();
    let principal = PrincipalId::new("alice");
    let token = acl.issue_principal_token(principal.clone()).token;
    let session = SessionId::new("session-a");
    acl.grant(principal.clone(), session.clone(), Role::Owner);
    acl.revoke(&principal, &session);

    assert_eq!(
        acl.check_token(&token, &session, Permission::ViewStream),
        Err(AuthError::MissingGrant)
    );
}

#[test]
fn access_goes_by_what_was_granted_last() {
    let mut acl = AclService::new();
    let (alice, bob) = (PrincipalId::new("alice"), PrincipalId::new("bob"));
    let (a, b) = (SessionId::new("session-a"), SessionId::new("session-b"));
    let key = Permission::SendKey;
    assert_eq!(acl.check_token("t", &a, key), Err(AuthError::InvalidToken));
    acl.register_principal_token(alice.clone(), "t");
    assert_eq!(acl.check_token("t", &a, key), Err(AuthError::MissingGrant));
    acl.grant(alice.clone(), a.clone(), Role::Viewer);
    assert_eq!(acl.check_token("t", &a, key), Err(AuthError::Forbidden));
    acl.grant(alice.clone(), a.clone(), Role::Controller);
    acl.grant(bob.clone(), a.clone(), Role::Viewer);
    acl.revoke(&alice, &b);
    acl.revoke(&bob, &a);
    assert_eq!(acl.check_token("t", &a, key), Ok(alice.clone()));
    acl.revoke(&alice, &a);
    assert_eq!(acl.check_token("t", &a, key), Err(AuthError::MissingGrant));
    acl.grant(alice.clone(), a.clone(), Role::Owner);
    assert_eq!(acl.check_token("t", &a, key), Ok(alice));
    acl.register_principal_token(bob, "t");
    assert_eq!(acl.check_token("t", &a, key), Err(AuthError::MissingGrant));
}

#[test]
fn tokens_are_kept_by_their_digest() {
    assert_eq!(
        mgba_gateway::auth::hash_token("abc"),
        "ba7816bf8f01cfea414140de5dae2223b00361a396177a9cb410ff61f20015ad"
    );
    let mut acl = AclService::new();
    acl.register_principal_token(PrincipalId::new("alice"), "secret");
    assert_eq!(acl.resolve_token("secret"), Ok(PrincipalId::new("alice")));
    assert_eq!(
        acl.resolve_token_hash(&mgba_gateway::auth::hash_token("secret")),
        Ok(PrincipalId::new("alice"))
    );
    assert_eq!(acl.resolve_token_hash("secret"), Err(AuthError::InvalidToken));
    acl.register_token_hash(PrincipalId::new("bob"), &mgba_gateway::auth::hash_token("secret"));
    assert_eq!(acl.resolve_token("secret"), Ok(PrincipalId::new("bob")));
}

#[test]
fn issued_tokens_are_random_hexadecimal() {
    let mut acl = AclService::new();
    let first = acl.issue_principal_token(PrincipalId::new("alice"));
    let second = acl.issue_principal_token(PrincipalId::new("alice"));
    assert_ne!(first.token, second.token);
    assert_eq!(first.token.len(), 64);
    assert!(first.token.chars().all(|c| "0123456789abcdef".contains(c)));
    assert!(first.token.chars().any(|c| c != '0'));
    assert_eq!(acl.resolve_token(&first.token), Ok(PrincipalId::new("alice")));
    assert_eq!(acl.resolve_token(&second.token), Ok(PrincipalId::new("alice")));
}

#[test]
fn a_role_without_the_permission_is_forbidden() {
    let mut acl = AclService::new();
    let alice = PrincipalId::new("alice");
    let session = SessionId::new("session-a");
    acl.register_principal_token(alice.clone(), "secret");
    let grant = acl.grant(alice.clone(), session.clone(), Role::Viewer);
    assert_eq!(grant.role, Role::Viewer);
    assert_eq!(grant.id.len(), 36);
    assert_eq!(
        acl.check_token("secret", &session, Permission::ReadMemory),
        Err(AuthError::Forbidden)
    );
    assert_eq!(acl.check_principal(&alice, &session, Permission::ViewStream), Ok(()));
    acl.grant(alice.clone(), session.clone(), Role::Admin);
    assert_eq!(acl.check_principal(&alice, &session, Permission::AdminLifecycle), Ok(()));
    let revoked = acl.revoke(&alice, &session).unwrap();
    assert!(revoked.revoked);
    assert_eq!(acl.revoke(&alice, &SessionId::new("session-b")), None);
    assert_eq!(
        acl.check_principal(&alice, &session, Permission::ViewStream),
        Err(AuthError::MissingGrant)
    );
    assert_eq!(
        acl.check_token_hash(
            &mgba_gateway::auth::hash_token("secret"),
            &session,
            Permission::ViewStream
        ),
        Err(AuthError::MissingGrant)
    );
}

#[test]
fn auth_errors_have_words() {
    assert_eq!(AuthError::InvalidToken.message(), "principal token is invalid");
    assert_eq!(
        AuthError::MissingGrant.message(),
        "principal has no active grant for session"
    );
    assert_eq!(
        AuthError::Forbidden.message(),
        "principal is not permitted to access this session resource"
    );
}
