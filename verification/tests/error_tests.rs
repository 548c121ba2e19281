use lightspeed_auth::error::{AuthError, ErrorOutcome, LightSpeedError};

fn msg() -> String {
    "detail".to_owned()
}

#[test]
fn every_token_and_header_failure_is_unauthenticated() {
    for err in [
        LightSpeedError::InvalidTokenError { message: msg() },
        LightSpeedError::ExpiredTokenError { message: msg() },
        LightSpeedError::MissingAuthTokenError,
        LightSpeedError::ParseAuthHeaderError { message: msg() },
        LightSpeedError::UnauthenticatedError,
    ] {
        assert_eq!(err.error_outcome(), ErrorOutcome::Unauthenticated);
    }
}

#[test]
fn a_missing_role_is_forbidden_and_nothing_else_is() {
    assert_eq!(
        LightSpeedError::ForbiddenError { message: msg() }.error_outcome(),
        ErrorOutcome::Forbidden
    );
}

#[test]
fn internal_faults_never_reach_the_presenter_as_client_errors() {
    for err in [
        LightSpeedError::GenerateTokenError { message: msg() },
        LightSpeedError::ModuleBuilderError { message: msg() },
        LightSpeedError::ModuleStartError { message: msg() },
        LightSpeedError::InternalServerError { message: msg() },
    ] {
        assert_eq!(err.error_outcome(), ErrorOutcome::InternalFault);
    }
}

#[test]
fn credential_level_errors_keep_their_kind_and_detail() {
    assert!(matches!(
        AuthError::from_error(LightSpeedError::MissingAuthTokenError),
        AuthError::MissingAuthTokenError
    ));
    match AuthError::from_error(LightSpeedError::ParseAuthHeaderError { message: msg() }) {
        AuthError::ParseAuthHeaderError { message } => assert_eq!(message, "detail"),
        other => panic!("unexpected kind: {:?}", other),
    }
}

#[test]
fn token_failures_collapse_into_one_kind() {
    for err in [
        LightSpeedError::InvalidTokenError { message: msg() },
        LightSpeedError::ExpiredTokenError { message: msg() },
        LightSpeedError::GenerateTokenError { message: msg() },
        LightSpeedError::UnauthenticatedError,
    ] {
        assert!(matches!(
            AuthError::from_error(err),
            AuthError::JwtTokenError { .. }
        ));
    }
}
