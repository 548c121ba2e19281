use lightspeed_auth::auth::{Auth, AuthService, InMemoryRolesProvider, Role, RolesProvider};
use lightspeed_auth::error::LightSpeedError;
use lightspeed_auth::jwt::{Algorithm, JwtConfig, JwtService};
use lightspeed_auth::web::WebAuthService;

fn provider() -> InMemoryRolesProvider {
    InMemoryRolesProvider::new(vec![
        Role {
            name: "admin".to_owned(),
            permissions: vec!["content.write".to_owned(), "content.read".to_owned()],
        },
        Role {
            name: "reader".to_owned(),
            permissions: vec!["content.read".to_owned()],
        },
    ])
}

fn identity(roles: Vec<String>) -> Auth {
    Auth {
        username: "Amelia".to_owned(),
        id: 100,
        roles,
    }
}

#[test]
fn has_role_fails_closed_on_an_identity_without_roles() {
    let service = AuthService::new(provider());
    let ctx = service.auth(identity(vec![]));
    let resp = ctx.has_role("admin");
    assert!(matches!(
        resp.err().unwrap(),
        LightSpeedError::ForbiddenError { .. }
    ));
}

#[test]
fn has_role_succeeds_and_returns_the_same_context() {
    let service = AuthService::new(provider());
    let ctx = service.auth(identity(vec!["admin".to_owned()]));
    let again = ctx.has_role("admin").unwrap();
    assert_eq!(again.auth.username, ctx.auth.username);
    assert!(std::ptr::eq(again, &ctx));
    // chaining stays available on the returned context
    assert!(again.is_authenticated().is_ok());
}

#[test]
fn unknown_role_names_are_dropped_silently_from_enrichment() {
    let service = AuthService::new(provider());
    let ctx = service.auth(identity(vec![
        "admin".to_owned(),
        "no-such-role".to_owned(),
    ]));
    let mut perms = ctx.permissions.clone();
    perms.sort();
    assert_eq!(
        perms,
        vec!["content.read".to_owned(), "content.write".to_owned()]
    );
}

#[test]
fn enrichment_with_only_unknown_roles_yields_no_permissions() {
    let service = AuthService::new(provider());
    let ctx = service.auth(identity(vec!["stale".to_owned()]));
    assert!(ctx.permissions.is_empty());
}

#[test]
fn resolve_and_exists_follow_the_role_list() {
    let p = provider();
    assert!(p.exists_role("admin"));
    assert!(!p.exists_role("nobody"));
    let role = p.resolve("reader").unwrap();
    assert_eq!(role.name, "reader");
    assert_eq!(role.permissions, vec!["content.read".to_owned()]);
    assert!(p.resolve("nobody").is_none());
}

#[test]
fn end_to_end_issue_transmit_verify_and_check_role() {
    let service = WebAuthService::new(
        AuthService::new(InMemoryRolesProvider::new(vec![Role {
            name: "admin".to_owned(),
            permissions: vec![],
        }])),
        JwtService::new(&JwtConfig {
            secret: "secret".to_owned(),
            signature_algorithm: Algorithm::HS256,
            token_validity_minutes: 10,
        })
        .unwrap(),
    );
    let token = service.token_from_auth(&identity(vec![])).unwrap();
    let header = format!("Bearer {}", token);
    let ctx = service.auth_from_request(Some(&header)).unwrap();
    assert_eq!(ctx.auth.username, "Amelia");
    assert!(matches!(
        ctx.has_role("admin").err().unwrap(),
        LightSpeedError::ForbiddenError { .. }
    ));
}
