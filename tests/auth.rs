use guildhub::auth::{AuthError, AuthService, MaybeAuthenticated, TokenClaims};
use guildhub::directory::GitlabService;
use guildhub::member::Member;

fn service() -> AuthService {
    AuthService::new(3600, "top-secret".to_string())
}

#[test]
fn issued_token_validates_to_its_claims() {
    let auth = service();
    let token = auth.create_token_at(42, 1_000).unwrap();
    let claims = auth.decode_token_at(&token, 1_500).unwrap();
    assert_eq!(claims, TokenClaims { sub: 42, iat: 1_000, exp: 4_600 });
}

#[test]
fn token_past_its_expiry_is_expired() {
    let auth = service();
    let token = auth.create_token_at(42, 1_000).unwrap();
    assert_eq!(auth.decode_token_at(&token, 4_600).unwrap().sub, 42);
    assert_eq!(auth.decode_token_at(&token, 4_601), Err(AuthError::Expired));
}

#[test]
fn token_from_the_clock_validates_now() {
    let auth = service();
    let token = auth.create_token(42).unwrap();
    assert_eq!(auth.decode_token(&token).unwrap().sub, 42);
}

#[test]
fn token_under_another_secret_is_refused() {
    let token = service().create_token_at(42, 1_000).unwrap();
    let other = AuthService::new(3600, "other".to_string());
    assert_eq!(other.decode_token_at(&token, 1_000), Err(AuthError::SignatureInvalid));
}

#[test]
fn garbage_is_malformed() {
    assert_eq!(service().decode_token_at("not-a-token", 0), Err(AuthError::Malformed));
}

#[test]
fn refresh_only_after_two_hours() {
    let auth = service();
    let claims = TokenClaims { sub: 7, iat: 10_000, exp: 13_600 };
    assert_eq!(auth.refresh_token_if_needed_at(claims, 17_200), Ok(None));
    let fresh = auth.refresh_token_if_needed_at(claims, 17_201).unwrap().unwrap();
    let new_claims = auth.decode_token_at(&fresh, 17_201).unwrap();
    assert_eq!(new_claims, TokenClaims { sub: 7, iat: 17_201, exp: 20_801 });
}

#[test]
fn old_token_stays_valid_after_refresh() {
    let auth = service();
    let old = auth.create_token_at(7, 0).unwrap();
    let _fresh = auth.refresh_token_if_needed_at(TokenClaims { sub: 7, iat: 0, exp: 3_600 }, 3_000);
    assert_eq!(auth.decode_token_at(&old, 3_000).unwrap().sub, 7);
}

#[test]
fn request_credential_resolves_to_a_directory_member() {
    let auth = service();
    let mut dir = GitlabService::new(600);
    dir.insert_member_into_cache(Member { id: 42, username: "ann".to_string(), name: String::new(), avatar_url: String::new() });
    let token = auth.create_token_at(42, 1_000).unwrap();
    let who = MaybeAuthenticated::from_token_at(&auth, &dir, Some(&token), 1_500);
    assert_eq!(who.0.as_ref().unwrap().username, "ann");
    assert_eq!(who.require().unwrap().0.id, 42);
    assert!(MaybeAuthenticated::from_token_at(&auth, &dir, None, 1_500).0.is_none());
    assert!(MaybeAuthenticated::from_token_at(&auth, &dir, Some(&token), 9_000).0.is_none());
    let stranger = auth.create_token_at(7, 1_000).unwrap();
    assert!(MaybeAuthenticated::from_token_at(&auth, &dir, Some(&stranger), 1_500).require().is_none());
}
