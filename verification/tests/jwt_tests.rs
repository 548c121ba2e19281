use lightspeed_auth::auth::Auth;
use lightspeed_auth::error::LightSpeedError;
use lightspeed_auth::jwt::{Algorithm, JwtConfig, JwtService, JWT};

fn codec(secret: &str, minutes: u32) -> JwtService {
    JwtService::new(&JwtConfig {
        secret: secret.to_owned(),
        signature_algorithm: Algorithm::HS256,
        token_validity_minutes: minutes,
    })
    .unwrap()
}

fn amelia() -> Auth {
    Auth {
        username: "Amelia".to_owned(),
        id: 100,
        roles: vec!["admin".to_owned(), "editor".to_owned()],
    }
}

#[test]
fn sign_then_verify_round_trips_the_identity() {
    let service = codec("secret", 10);
    let (jwt, token) = service.generate_from_payload_at(&amelia(), 1_000).unwrap();
    assert_eq!(jwt.iat, 1_000);
    assert_eq!(jwt.exp, 1_600);
    let parsed = service.parse_token(&token, 1_000).unwrap();
    assert_eq!(parsed.payload.username, "Amelia");
    assert_eq!(parsed.payload.id, 100);
    assert_eq!(
        parsed.payload.roles,
        vec!["admin".to_owned(), "editor".to_owned()]
    );
    assert_eq!(parsed.iat, 1_000);
    assert_eq!(parsed.exp, 1_600);
    assert_eq!(parsed.sub, "");
}

#[test]
fn expiry_boundary_is_exclusive_at_the_expiry_instant() {
    let service = codec("secret", 10);
    let (jwt, token) = service.generate_from_payload_at(&amelia(), 1_000).unwrap();
    assert_eq!(jwt.exp, 1_600);
    // one second before expiry: still good
    assert!(service.parse_token(&token, 1_599).is_ok());
    // at the expiry instant and after: expired, with the expiry kind
    assert!(matches!(
        service.parse_token(&token, 1_600).err().unwrap(),
        LightSpeedError::ExpiredTokenError { .. }
    ));
    assert!(matches!(
        service.parse_token(&token, 1_601).err().unwrap(),
        LightSpeedError::ExpiredTokenError { .. }
    ));
}

#[test]
fn wrong_secret_is_invalid_never_expired_even_for_stale_claims() {
    let signer = codec("secret-one", 10);
    let verifier = codec("secret-two", 10);
    // claims long expired: a wrong secret must still surface as invalid
    let stale = JWT {
        payload: amelia(),
        exp: 1,
        iat: 0,
        sub: "".to_owned(),
    };
    let token = signer.generate_from_token(&stale).unwrap();
    assert!(matches!(
        verifier.parse_token(&token, 1_000_000).err().unwrap(),
        LightSpeedError::InvalidTokenError { .. }
    ));
    // and a fresh token fails the same way
    let (_, fresh) = signer.generate_from_payload_at(&amelia(), 1_000).unwrap();
    assert!(matches!(
        verifier.parse_token(&fresh, 1_000).err().unwrap(),
        LightSpeedError::InvalidTokenError { .. }
    ));
}

#[test]
fn tampering_with_any_character_invalidates_the_token() {
    let service = codec("secret", 10);
    let (_, token) = service.generate_from_payload_at(&amelia(), 1_000).unwrap();
    let chars: Vec<char> = token.chars().collect();
    // flip one character in the middle of the payload segment
    let mid = chars.len() / 2;
    let mut tampered: String = chars[..mid].iter().collect();
    tampered.push(if chars[mid] == '0' { '1' } else { '0' });
    tampered.extend(chars[mid + 1..].iter());
    assert_ne!(token, tampered);
    assert!(matches!(
        service.parse_token(&tampered, 1_000).err().unwrap(),
        LightSpeedError::InvalidTokenError { .. }
    ));
}

#[test]
fn garbage_tokens_are_invalid() {
    let service = codec("secret", 10);
    for bad in ["", "HS256.", "HS256", "x.y.z", "Bearer abc", "HS256..."] {
        assert!(matches!(
            service.parse_token(bad, 0).err().unwrap(),
            LightSpeedError::InvalidTokenError { .. }
        ));
    }
}

#[test]
fn unrepresentable_expiry_is_a_generation_fault() {
    let service = codec("secret", 10);
    let resp = service.generate_from_payload_at(&amelia(), u64::MAX);
    assert!(matches!(
        resp.err().unwrap(),
        LightSpeedError::GenerateTokenError { .. }
    ));
}

#[test]
fn empty_secret_or_zero_validity_is_rejected_at_construction() {
    let no_secret = JwtService::new(&JwtConfig {
        secret: "".to_owned(),
        signature_algorithm: Algorithm::HS256,
        token_validity_minutes: 10,
    });
    assert!(matches!(
        no_secret.err().unwrap(),
        LightSpeedError::ModuleBuilderError { .. }
    ));
    let no_window = JwtService::new(&JwtConfig {
        secret: "secret".to_owned(),
        signature_algorithm: Algorithm::HS256,
        token_validity_minutes: 0,
    });
    assert!(matches!(
        no_window.err().unwrap(),
        LightSpeedError::ModuleBuilderError { .. }
    ));
}

#[test]
fn identities_with_empty_and_exotic_strings_round_trip() {
    let service = codec("secret", 10);
    let auth = Auth {
        username: "".to_owned(),
        id: -7,
        roles: vec!["".to_owned(), "dots.and.spaces etc".to_owned()],
    };
    let (_, token) = service.generate_from_payload_at(&auth, 42).unwrap();
    let parsed = service.parse_token(&token, 42).unwrap();
    assert_eq!(parsed.payload.username, "");
    assert_eq!(parsed.payload.id, -7);
    assert_eq!(
        parsed.payload.roles,
        vec!["".to_owned(), "dots.and.spaces etc".to_owned()]
    );
}
