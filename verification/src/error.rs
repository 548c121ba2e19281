//! Error taxonomy of the authentication core, and the mapping of every
//! failure onto a transport-agnostic outcome category.

use vstd::prelude::*;

verus! {

/// Every failure the authentication and authorization pipeline can produce.
#[derive(Debug)]
pub enum LightSpeedError {
    /// Signature or structure verification of a token failed.
    InvalidTokenError { message: String },
    /// The token's signature is valid but the token is past its validity window.
    ExpiredTokenError { message: String },
    /// Signing a token failed; an internal fault, not a client error.
    GenerateTokenError { message: String },
    /// No credential was presented.
    MissingAuthTokenError,
    /// A credential was presented but the header value is malformed.
    ParseAuthHeaderError { message: String },
    /// A module could not be assembled.
    ModuleBuilderError { message: String },
    /// A module could not be started.
    ModuleStartError { message: String },
    /// The caller is not authenticated.
    UnauthenticatedError,
    /// The caller is authenticated but lacks a required role.
    ForbiddenError { message: String },
    /// An unspecified internal fault.
    InternalServerError { message: String },
}

/// The transport-agnostic outcome category a failure maps to. The host
/// transport layer turns these into its own user-visible failure kinds,
/// without echoing internal detail to the credential presenter.
#[derive(Debug, Clone, Copy, PartialEq, Eq, Structural)]
pub enum ErrorOutcome {
    /// The request carries no acceptable credential.
    Unauthenticated,
    /// The credential is acceptable but the required capability is absent.
    Forbidden,
    /// An internal fault; never the presenter's doing.
    InternalFault,
}

impl LightSpeedError {
    /// Classifies this failure into its outcome category: every token or
    /// header failure is `Unauthenticated`, a missing role is `Forbidden`,
    /// and everything else is an internal fault.
    pub fn error_outcome(&self) -> (r: ErrorOutcome)
        ensures
            r == ErrorOutcome::Unauthenticated <==> (self is InvalidTokenError
                || self is ExpiredTokenError || self is MissingAuthTokenError
                || self is ParseAuthHeaderError || self is UnauthenticatedError),
            r == ErrorOutcome::Forbidden <==> self is ForbiddenError,
            r == ErrorOutcome::InternalFault <==> (self is GenerateTokenError
                || self is ModuleBuilderError || self is ModuleStartError
                || self is InternalServerError),
    {
        match self {
            LightSpeedError::InvalidTokenError { .. }
            | LightSpeedError::ExpiredTokenError { .. }
            | LightSpeedError::MissingAuthTokenError
            | LightSpeedError::ParseAuthHeaderError { .. }
            | LightSpeedError::UnauthenticatedError => ErrorOutcome::Unauthenticated,
            LightSpeedError::ForbiddenError { .. } => ErrorOutcome::Forbidden,
            LightSpeedError::GenerateTokenError { .. }
            | LightSpeedError::ModuleBuilderError { .. }
            | LightSpeedError::ModuleStartError { .. }
            | LightSpeedError::InternalServerError { .. } => ErrorOutcome::InternalFault,
        }
    }
}

/// The failures of the token-handling edge alone, for hosts that only
/// deal in credentials: every token fault is one kind, so that nothing of
/// why a token was rejected leaks to the presenter.
#[derive(Debug)]
pub enum AuthError {
    /// A token could not be generated or verified.
    JwtTokenError { message: String },
    /// No credential was presented.
    MissingAuthTokenError,
    /// A credential was presented but the header value is malformed.
    ParseAuthHeaderError { message: String },
}

impl AuthError {
    /// Collapses a pipeline failure into the three credential-level kinds:
    /// header faults keep their kind and their detail, everything else
    /// becomes a token fault, so that nothing of why a token was rejected
    /// leaks to the presenter.
    pub fn from_error(err: LightSpeedError) -> (r: AuthError)
        ensures
            r is MissingAuthTokenError <==> err is MissingAuthTokenError,
            r is ParseAuthHeaderError <==> err is ParseAuthHeaderError,
            err matches LightSpeedError::ParseAuthHeaderError { message } ==> r matches
                AuthError::ParseAuthHeaderError { message: m } && m == message,
            r is JwtTokenError <==> !(err is MissingAuthTokenError
                || err is ParseAuthHeaderError),
    {
        match err {
            LightSpeedError::MissingAuthTokenError => AuthError::MissingAuthTokenError,
            LightSpeedError::ParseAuthHeaderError { message } => AuthError::ParseAuthHeaderError {
                message,
            },
            LightSpeedError::InvalidTokenError { message }
            | LightSpeedError::ExpiredTokenError { message }
            | LightSpeedError::GenerateTokenError { message }
            | LightSpeedError::ModuleBuilderError { message }
            | LightSpeedError::ModuleStartError { message }
            | LightSpeedError::ForbiddenError { message }
            | LightSpeedError::InternalServerError { message } => AuthError::JwtTokenError {
                message,
            },
            LightSpeedError::UnauthenticatedError => AuthError::JwtTokenError {
                message: String::new(),
            },
        }
    }
}

} // verus!
