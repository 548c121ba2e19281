use lightspeed_auth::auth::{AuthService, InMemoryRolesProvider};
use lightspeed_auth::error::LightSpeedError;
use lightspeed_auth::jwt::{Algorithm, JwtConfig, JwtService};
use lightspeed_auth::web::WebAuthService;

fn new_service() -> WebAuthService<InMemoryRolesProvider> {
    WebAuthService::new(
        AuthService::new(InMemoryRolesProvider::new(vec![])),
        JwtService::new(&JwtConfig {
            secret: "secret".to_owned(),
            signature_algorithm: Algorithm::HS256,
            token_validity_minutes: 10,
        })
        .unwrap(),
    )
}

#[test]
fn bearer_header_yields_the_token_after_the_prefix() {
    let service = new_service();
    let token = service
        .token_string_from_request(Some("Bearer abc123"))
        .unwrap();
    assert_eq!(token, "abc123");
}

#[test]
fn bare_bearer_prefix_is_rejected_not_an_empty_token() {
    let service = new_service();
    let resp = service.token_string_from_request(Some("Bearer "));
    assert!(matches!(
        resp.err().unwrap(),
        LightSpeedError::ParseAuthHeaderError { .. }
    ));
}

#[test]
fn absent_header_is_a_missing_credential() {
    let service = new_service();
    let resp = service.token_string_from_request(None);
    assert!(matches!(
        resp.err().unwrap(),
        LightSpeedError::MissingAuthTokenError
    ));
}

#[test]
fn non_bearer_scheme_is_rejected_as_malformed() {
    let service = new_service();
    let resp = service.token_string_from_request(Some("Basic xyz"));
    assert!(matches!(
        resp.err().unwrap(),
        LightSpeedError::ParseAuthHeaderError { .. }
    ));
}

#[test]
fn long_non_bearer_value_is_rejected_as_malformed() {
    let service = new_service();
    let resp = service.token_string_from_request(Some("Basic xyzxyzxyzxyz"));
    assert!(matches!(
        resp.err().unwrap(),
        LightSpeedError::ParseAuthHeaderError { .. }
    ));
}
