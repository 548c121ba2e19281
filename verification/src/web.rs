//! The single orchestration entry point: bearer header extraction, token
//! verification, and identity enrichment, composed into one
//! transport-agnostic gateway. The host transport hands in the raw value
//! of the `Authorization` header, already located; everything after that
//! is decided here.

use vstd::prelude::*;
use vstd::string::StrSliceExecFns;
use crate::auth::{resolved_permissions, Auth, AuthContext, AuthService, RolesProvider};
use crate::error::LightSpeedError;
use crate::jwt::{token_of, token_parts, token_well_signed, JwtService, JwtView};

verus! {

/// The characters of the required credential prefix, `"Bearer "`: six
/// letters and one space, seven characters in all.
pub open spec fn bearer_prefix() -> Seq<char> {
    seq!['B', 'e', 'a', 'r', 'e', 'r', ' ']
}

/// Whether a header value is an acceptable bearer credential: the prefix
/// followed by at least one token character. A value of exactly the prefix
/// is rejected, not treated as an empty token.
pub open spec fn valid_auth_header(h: Seq<char>) -> bool {
    h.len() > 7 && h.subrange(0, 7) == bearer_prefix()
}

/// The gateway: produces an authorization context from an inbound request's
/// header value, and a token string from an identity for outbound issuance.
pub struct WebAuthService<T: RolesProvider> {
    pub auth_service: AuthService<T>,
    pub jwt_service: JwtService,
}

impl<T: RolesProvider> WebAuthService<T> {
    pub fn new(auth_service: AuthService<T>, jwt_service: JwtService) -> (s: Self)
        ensures
            s.auth_service == auth_service,
            s.jwt_service == jwt_service,
    {
        WebAuthService { auth_service, jwt_service }
    }

    /// Extracts the raw token from the value of the `Authorization`
    /// header: an absent header is a missing credential, a present value
    /// without the strict `"Bearer "` prefix and a non-empty remainder is
    /// malformed, and otherwise the characters after the prefix are the
    /// candidate token.
    pub fn token_string_from_request<'a>(&self, header: Option<&'a str>) -> (r: Result<
        &'a str,
        LightSpeedError,
    >)
        ensures
            match header {
                None => r matches Err(e) && e is MissingAuthTokenError,
                Some(h) => {
                    if valid_auth_header(h@) {
                        r matches Ok(t) && t@ == h@.subrange(7, h@.len() as int)
                    } else {
                        r matches Err(e) && e is ParseAuthHeaderError
                    }
                },
            },
    {
        let h = match header {
            Some(h) => h,
            None => {
                return Err(LightSpeedError::MissingAuthTokenError);
            },
        };
        let n = h.unicode_len();
        if n <= 7 {
            return Err(
                LightSpeedError::ParseAuthHeaderError {
                    message: "unexpected auth header".to_owned(),
                },
            );
        }
        if !(h.get_char(0) == 'B' && h.get_char(1) == 'e' && h.get_char(2) == 'a' && h.get_char(3)
            == 'r' && h.get_char(4) == 'e' && h.get_char(5) == 'r' && h.get_char(6) == ' ') {
            proof {
                if h@.subrange(0, 7) == bearer_prefix() {
                    assert(h@.subrange(0, 7)[0] == h@[0]);
                    assert(h@.subrange(0, 7)[1] == h@[1]);
                    assert(h@.subrange(0, 7)[2] == h@[2]);
                    assert(h@.subrange(0, 7)[3] == h@[3]);
                    assert(h@.subrange(0, 7)[4] == h@[4]);
                    assert(h@.subrange(0, 7)[5] == h@[5]);
                    assert(h@.subrange(0, 7)[6] == h@[6]);
                }
            }
            return Err(
                LightSpeedError::ParseAuthHeaderError {
                    message: "unexpected auth header".to_owned(),
                },
            );
        }
        proof {
            assert(h@.subrange(0, 7) =~= bearer_prefix());
        }
        Ok(h.substring_char(7, n))
    }

    /// Issues a ready-to-transmit token for an identity: signed under the
    /// configured secret, valid from now for the configured window, with
    /// an empty subject.
    pub fn token_from_auth(&self, auth: &Auth) -> (r: Result<String, LightSpeedError>)
        ensures
            r matches Ok(s) ==> exists|j: JwtView|
                {
                    &&& #[trigger] token_of(self.jwt_service.secret@, j) == s@
                    &&& j.payload == auth@
                    &&& j.sub == Seq::<char>::empty()
                    &&& j.iat + self.jwt_service.token_validity_secs == j.exp
                },
            r matches Err(e) ==> e is GenerateTokenError,
    {
        match self.jwt_service.generate_from_payload(auth) {
            Ok(p) => {
                proof {
                    let j = p.0@;
                    assert(token_of(self.jwt_service.secret@, j) == p.1@ && j.payload == auth@
                        && j.sub == Seq::<char>::empty() && j.iat
                        + self.jwt_service.token_validity_secs == j.exp);
                }
                Ok(p.1)
            },
            Err(e) => Err(e),
        }
    }

    /// Builds an authorization context from a raw token string: verify the
    /// signature, check expiry, then resolve the identity's permissions.
    /// Exposed so collaborators holding a token from a non-header
    /// transport can still build a context.
    pub fn auth_from_token_string(&self, token: &str) -> (r: Result<AuthContext, LightSpeedError>)
        ensures
            r matches Ok(ctx) ==> (token_parts(token@) matches Some(p) && ctx.auth@ == p.0.payload
                && token_well_signed(self.jwt_service.secret@, token@)
                && ctx.permissions.deep_view().to_set() == resolved_permissions(
                p.0.payload.roles,
                self.auth_service.roles_provider.roles(),
            )),
            r matches Err(e) ==> (e is InvalidTokenError || e is ExpiredTokenError),
            (r matches Err(e) && e is InvalidTokenError) <==> !token_well_signed(
                self.jwt_service.secret@,
                token@,
            ),
    {
        match self.jwt_service.parse_payload(token) {
            Ok(auth) => Ok(self.auth_service.auth(auth)),
            Err(e) => Err(e),
        }
    }

    /// The whole request path: header extraction, token verification, and
    /// enrichment, propagating the first failure unchanged.
    pub fn auth_from_request(&self, header: Option<&str>) -> (r: Result<
        AuthContext,
        LightSpeedError,
    >)
        ensures
            header is None ==> (r matches Err(e) && e is MissingAuthTokenError),
            header matches Some(h) ==> !valid_auth_header(h@) ==> (r matches Err(e)
                && e is ParseAuthHeaderError),
            header matches Some(h) ==> valid_auth_header(h@) ==> {
                let tok = h@.subrange(7, h@.len() as int);
                &&& (r matches Ok(ctx) ==> (token_parts(tok) matches Some(p) && ctx.auth@
                    == p.0.payload && token_well_signed(self.jwt_service.secret@, tok)
                    && ctx.permissions.deep_view().to_set() == resolved_permissions(
                    p.0.payload.roles,
                    self.auth_service.roles_provider.roles(),
                )))
                &&& (r matches Err(e) ==> (e is InvalidTokenError || e is ExpiredTokenError))
                &&& ((r matches Err(e) && e is InvalidTokenError) <==> !token_well_signed(
                    self.jwt_service.secret@,
                    tok,
                ))
            },
    {
        match self.token_string_from_request(header) {
            Ok(token) => self.auth_from_token_string(token),
            Err(e) => Err(e),
        }
    }
}

} // verus!
