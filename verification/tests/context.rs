use croniq::auth::{default_scopes_for_role, AuthMethod, CallerContext, CallerType, Role, Scope};

fn user_ctx(scopes: Vec<String>, role: Option<Role>) -> CallerContext {
    CallerContext {
        caller_type: CallerType::User,
        caller_id: "user-1".into(),
        client_id: "user-1".into(),
        user_id: Some("user-1".into()),
        role,
        auth_method: AuthMethod::Password,
        scopes,
    }
}

#[test]
fn admin_has_all_scopes() {
    let ctx = user_ctx(vec!["admin".into()], Some(Role::Admin));
    assert!(ctx.has_scope("jobs:read"));
    assert!(ctx.has_scope("anything"));
    assert!(ctx.is_admin());
}

#[test]
fn specific_scope_check_for_api_key() {
    let ctx = CallerContext {
        caller_type: CallerType::ApiKey,
        caller_id: "key-1".into(),
        client_id: "client-1".into(),
        user_id: None,
        role: None,
        auth_method: AuthMethod::ApiKey,
        scopes: vec!["jobs:read".into(), "runners:read".into()],
    };
    assert!(ctx.has_scope("jobs:read"));
    assert!(!ctx.has_scope("jobs:write"));
    assert!(!ctx.is_admin());
}

#[test]
fn admin_role_scopes_are_just_the_wildcard() {
    let scopes = default_scopes_for_role(Role::Admin);
    assert_eq!(scopes, vec!["admin"]);
}

#[test]
fn operator_role_can_write_jobs_but_not_admin() {
    let scopes = default_scopes_for_role(Role::Operator);
    let ctx = user_ctx(scopes, Some(Role::Operator));
    assert!(ctx.has_scope(Scope::JOBS_WRITE));
    assert!(ctx.has_scope(Scope::JOBS_TRIGGER));
    assert!(ctx.has_scope(Scope::SCHEDULES_WRITE));
    assert!(ctx.has_scope(Scope::DEAD_LETTERS_WRITE));
    // No admin powers.
    assert!(!ctx.has_scope(Scope::API_CLIENTS_ADMIN));
    assert!(!ctx.has_scope(Scope::API_KEYS_ADMIN));
    assert!(!ctx.has_scope(Scope::RUNNERS_WRITE));
    assert!(!ctx.is_admin());
}

#[test]
fn viewer_role_is_read_only() {
    let scopes = default_scopes_for_role(Role::Viewer);
    let ctx = user_ctx(scopes, Some(Role::Viewer));
    assert!(ctx.has_scope(Scope::JOBS_READ));
    assert!(ctx.has_scope(Scope::EXECUTIONS_READ));
    assert!(ctx.has_scope(Scope::RUNNERS_READ));
    assert!(!ctx.has_scope(Scope::JOBS_WRITE));
    assert!(!ctx.has_scope(Scope::JOBS_TRIGGER));
    assert!(!ctx.has_scope(Scope::DEAD_LETTERS_WRITE));
}

#[test]
fn has_any_scope_checks_each() {
    let ctx = user_ctx(vec!["jobs:read".into()], None);
    assert!(ctx.has_any_scope(&["jobs:write", "jobs:read"]));
    assert!(!ctx.has_any_scope(&["jobs:write", "runners:read"]));
    assert!(!ctx.has_any_scope(&[]));
}
