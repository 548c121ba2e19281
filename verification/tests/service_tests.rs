use lightspeed_auth::auth::{Auth, AuthService, InMemoryRolesProvider, Role};
use lightspeed_auth::error::{ErrorOutcome, LightSpeedError};
use lightspeed_auth::jwt::{Algorithm, JwtConfig, JwtService, JWT};
use lightspeed_auth::web::WebAuthService;

const JWT_TOKEN_HEADER_SUFFIX: &str = "Bearer ";

fn new_service() -> WebAuthService<InMemoryRolesProvider> {
    WebAuthService::new(
        AuthService::new(InMemoryRolesProvider::new(vec![Role {
            name: "admin".to_owned(),
            permissions: vec![],
        }])),
        JwtService::new(&JwtConfig {
            secret: "secret".to_owned(),
            signature_algorithm: Algorithm::HS256,
            token_validity_minutes: 10,
        })
        .unwrap(),
    )
}

#[test]
fn service_access_protected_url_should_return_unauthorized_if_no_token() {
    // Arrange
    let service = new_service();

    // Act
    let resp = service.auth_from_request(None);

    // Assert
    assert_eq!(
        resp.err().unwrap().error_outcome(),
        ErrorOutcome::Unauthenticated
    );
}

#[test]
fn service_access_protected_url_should_return_unauthorized_if_expired_token() {
    // Arrange
    let token = JWT {
        payload: Auth {
            username: "Amelia".to_owned(),
            id: 100,
            roles: vec![],
        },
        exp: 0,
        iat: 0,
        sub: "".to_owned(),
    };
    let service = new_service();
    let token = service.jwt_service.generate_from_token(&token).unwrap();

    let header = format!("{}{}", JWT_TOKEN_HEADER_SUFFIX, token);

    // Act
    let resp = service.auth_from_request(Some(&header));

    // Assert
    assert_eq!(
        resp.err().unwrap().error_outcome(),
        ErrorOutcome::Unauthenticated
    );
}

#[test]
fn service_access_protected_url_should_return_ok_if_valid_token() {
    // Arrange
    let auth = Auth {
        username: "Amelia".to_owned(),
        id: 100,
        roles: vec![],
    };
    let service = new_service();
    let token = service.token_from_auth(&auth).unwrap();

    let header = format!("{}{}", JWT_TOKEN_HEADER_SUFFIX, token);

    // Act
    let resp = service.auth_from_request(Some(&header));

    // Assert
    assert_eq!(resp.unwrap().auth.username, "Amelia");
}

#[test]
fn service_access_admin_url_should_return_forbidden_if_not_admin_role() {
    // Arrange
    let auth = Auth {
        username: "Amelia".to_owned(),
        id: 100,
        roles: vec![],
    };
    let service = new_service();
    let token = service.token_from_auth(&auth).unwrap();

    let header = format!("{}{}", JWT_TOKEN_HEADER_SUFFIX, token);

    // Act
    let auth_context = service.auth_from_request(Some(&header)).unwrap();
    let resp = auth_context.has_role("admin");

    // Assert
    let err = resp.err().unwrap();
    assert!(matches!(err, LightSpeedError::ForbiddenError { .. }));
    assert_eq!(err.error_outcome(), ErrorOutcome::Forbidden);
}
