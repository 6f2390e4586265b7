use vstd::prelude::*;

use crate::directory::GitlabService;
use crate::member::Member;

verus! {

#[verifier::external_type_specification]
#[verifier::external_body]
pub struct ExJwtError(jsonwebtoken::errors::Error);

/// The HS256 token that `jsonwebtoken::encode` makes of the claims
/// `{exp, iat, sub}` under `secret`, with the default header.
pub uninterp spec fn signed_token(secret: Seq<char>, sub: u64, iat: u64, exp: u64) -> Seq<char>;

/// What `jsonwebtoken::decode` makes of `token` under `secret`, expiry not
/// looked at: the `(sub, iat, exp)` claims when the token is well formed,
/// carries an `exp` claim and its HS256 signature holds; otherwise whether it
/// was refused for its signature (`true`) or for anything else (`false`).
pub uninterp spec fn token_payload(secret: Seq<char>, token: Seq<char>) -> Result<(Option<u64>, Option<u64>, Option<u64>), bool>;

/// Relies on `jsonwebtoken::encode` with the default (HS256) header and a
/// key from `EncodingKey::from_secret`: the key family matches the header,
/// a map of integers always serializes and HMAC signing cannot fail, so it
/// succeeds; the result depends on the secret and the claims alone.
#[verifier::external_body]
fn encode_claims(secret: &str, sub: u64, iat: u64, exp: u64) -> (r: Result<String, jsonwebtoken::errors::Error>)
    ensures
        r is Ok,
        r matches Ok(t) ==> t@ == signed_token(secret@, sub, iat, exp),
{
    let claims = std::collections::BTreeMap::from([("sub", sub), ("iat", iat), ("exp", exp)]);
    jsonwebtoken::encode(
        &jsonwebtoken::Header::default(),
        &claims,
        &jsonwebtoken::EncodingKey::from_secret(secret.as_bytes()),
    )
}

/// `r` carries the claims, or the refusal reason, that `d` names.
pub open spec fn agrees_with(d: Result<(Option<u64>, Option<u64>, Option<u64>), bool>, r: Result<(Option<u64>, Option<u64>, Option<u64>), (jsonwebtoken::errors::Error, bool)>) -> bool {
    match r {
        Ok(p) => d == Ok::<(Option<u64>, Option<u64>, Option<u64>), bool>(p),
        Err(e) => d == Err::<(Option<u64>, Option<u64>, Option<u64>), bool>(e.1),
    }
}

/// A token that `encode` made under `secret` decodes to the claims it was made of.
pub open spec fn reads_back(secret: Seq<char>, token: Seq<char>, r: Result<(Option<u64>, Option<u64>, Option<u64>), (jsonwebtoken::errors::Error, bool)>) -> bool {
    forall|s: u64, i: u64, e: u64| token == #[trigger] signed_token(secret, s, i, e)
        ==> (r matches Ok(p) && p == (Some(s), Some(i), Some(e)))
}

/// Relies on `jsonwebtoken::decode` with HS256 and expiry checking switched
/// off, and on `Error::kind` to tell a refused signature from other errors:
/// the signature, the shape and the presence of `exp` are checked, and the
/// claims are read as a map of integers; a token that `encode` made under the
/// same secret reads back as it was made.
#[verifier::external_body]
fn decode_claims(secret: &str, token: &str) -> (r: Result<(Option<u64>, Option<u64>, Option<u64>), (jsonwebtoken::errors::Error, bool)>)
    ensures
        agrees_with(token_payload(secret@, token@), r),
        reads_back(secret@, token@, r),
{
    let mut validation = jsonwebtoken::Validation::new(jsonwebtoken::Algorithm::HS256);
    validation.validate_exp = false;
    let key = jsonwebtoken::DecodingKey::from_secret(secret.as_bytes());
    match jsonwebtoken::decode::<std::collections::BTreeMap<String, u64>>(token, &key, &validation) {
        Ok(d) => Ok((d.claims.get("sub").copied(), d.claims.get("iat").copied(), d.claims.get("exp").copied())),
        Err(e) => {
            let refused = matches!(e.kind(), jsonwebtoken::errors::ErrorKind::InvalidSignature);
            Err((e, refused))
        },
    }
}

/// Relies on `SystemTime::duration_since(UNIX_EPOCH)` on the system clock:
/// whole seconds since the epoch, or nothing for a clock set before it.
#[verifier::external_body]
fn clock_secs() -> (r: Option<u64>) {
    match std::time::SystemTime::now().duration_since(std::time::UNIX_EPOCH) {
        Ok(d) => Some(d.as_secs()),
        Err(_) => None,
    }
}

/// Seconds since the epoch; a clock set before the epoch reads as zero.
pub fn now_secs() -> (r: u64) {
    match clock_secs() {
        Some(t) => t,
        None => 0,
    }
}

/// What a credential asserts: who, issued when, valid until when (seconds
/// since the epoch).
#[derive(PartialEq, Eq, Structural, Clone, Copy, Debug)]
pub struct TokenClaims {
    pub sub: u64,
    pub iat: u64,
    pub exp: u64,
}

/// Why a credential was not accepted.
#[derive(PartialEq, Eq, Structural, Clone, Copy, Debug)]
pub enum AuthError {
    Missing,
    Malformed,
    Expired,
    SignatureInvalid,
}

/// A credential could not be signed.
#[derive(PartialEq, Eq, Structural, Clone, Copy, Debug)]
pub enum SigningError {
    Failed,
}

/// Age in seconds past which a credential is reissued: two hours.
pub const REFRESH_AFTER_SECS: u64 = 7200;

/// The claims issued to `sub` at `now` for a window of `window` seconds;
/// an expiry past the end of time stops there.
pub open spec fn claims_at(sub: u64, now: u64, window: u64) -> TokenClaims {
    TokenClaims {
        sub,
        iat: now,
        exp: if now + window > u64::MAX { u64::MAX } else { (now + window) as u64 },
    }
}

/// What validation makes of a decoded payload at time `now`.
pub open spec fn check_payload(p: (Option<u64>, Option<u64>, Option<u64>), now: u64) -> Result<TokenClaims, AuthError> {
    match p {
        (Some(sub), Some(iat), Some(exp)) => if now > exp {
            Err(AuthError::Expired)
        } else {
            Ok(TokenClaims { sub, iat, exp })
        },
        _ => Err(AuthError::Malformed),
    }
}

/// What validation at time `now` makes of what decoding gave: the claims,
/// or the reason the token is refused.
pub open spec fn check_outcome(d: Result<(Option<u64>, Option<u64>, Option<u64>), bool>, now: u64) -> Result<TokenClaims, AuthError> {
    match d {
        Ok(p) => check_payload(p, now),
        Err(true) => Err(AuthError::SignatureInvalid),
        Err(false) => Err(AuthError::Malformed),
    }
}

/// Credentials are due for reissue once they are older than two hours.
pub open spec fn is_stale(c: TokenClaims, now: u64) -> bool {
    now > c.iat && now - c.iat > REFRESH_AFTER_SECS
}

/// Issues and checks the signed credential that gates every request; the
/// server keeps no record of what it issued.
pub struct AuthService {
    expire_in_secs: u64,
    secret: String,
}

impl AuthService {
    pub fn new(expire_in_secs: u64, secret: String) -> (r: AuthService)
        ensures
            r.expire_in() == expire_in_secs,
            r.secret() == secret@,
    {
        AuthService { expire_in_secs, secret }
    }

    pub closed spec fn expire_in(&self) -> u64 {
        self.expire_in_secs
    }

    pub closed spec fn secret(&self) -> Seq<char> {
        self.secret@
    }

    /// Signs the claims of `user_id` issued at `now`.
    pub fn create_token_at(&self, user_id: u64, now: u64) -> (r: Result<String, SigningError>)
        ensures
            r matches Ok(t) ==> {
                let c = claims_at(user_id, now, self.expire_in());
                t@ == signed_token(self.secret(), c.sub, c.iat, c.exp)
            },
            r is Ok,
    {
        let exp = now.saturating_add(self.expire_in_secs);
        match encode_claims(self.secret.as_str(), user_id, now, exp) {
            Ok(t) => Ok(t),
            Err(_) => Err(SigningError::Failed),
        }
    }

    /// Signs the claims of `user_id` issued now.
    pub fn create_token(&self, user_id: u64) -> (r: Result<String, SigningError>)
        ensures
            r is Ok,
            r matches Ok(t) ==> exists|now: u64| {
                let c = #[trigger] claims_at(user_id, now, self.expire_in());
                t@ == signed_token(self.secret(), c.sub, c.iat, c.exp)
            },
    {
        let now = now_secs();
        self.create_token_at(user_id, now)
    }

    /// Reads and checks `token` at time `now`: its shape and signature, then
    /// its expiry. A token that this service signed reads back as the claims
    /// it was made of until its `exp`, and as `Expired` after.
    pub fn decode_token_at(&self, token: &str, now: u64) -> (r: Result<TokenClaims, AuthError>)
        ensures
            r == check_outcome(token_payload(self.secret(), token@), now),
            forall|s: u64, i: u64, e: u64| token@ == #[trigger] signed_token(self.secret(), s, i, e) ==> {
                &&& now <= e ==> r == Ok::<TokenClaims, AuthError>(TokenClaims { sub: s, iat: i, exp: e })
                &&& now > e ==> r == Err::<TokenClaims, AuthError>(AuthError::Expired)
            },
    {
        match decode_claims(self.secret.as_str(), token) {
            Ok(p) => match p {
                (Some(sub), Some(iat), Some(exp)) => if now > exp {
                    Err(AuthError::Expired)
                } else {
                    Ok(TokenClaims { sub, iat, exp })
                },
                _ => Err(AuthError::Malformed),
            },
            Err(e) => if e.1 {
                Err(AuthError::SignatureInvalid)
            } else {
                Err(AuthError::Malformed)
            },
        }
    }

    /// Reads and checks `token` against the clock.
    pub fn decode_token(&self, token: &str) -> (r: Result<TokenClaims, AuthError>)
        ensures
            exists|now: u64| r == #[trigger] check_outcome(token_payload(self.secret(), token@), now),
            forall|s: u64, i: u64, e: u64| token@ == #[trigger] signed_token(self.secret(), s, i, e)
                ==> exists|now: u64| r == #[trigger] check_payload((Some(s), Some(i), Some(e)), now),
    {
        let now = now_secs();
        let r = self.decode_token_at(token, now);
        proof {
            assert forall|s: u64, i: u64, e: u64| token@ == #[trigger] signed_token(self.secret(), s, i, e)
                implies exists|n: u64| r == #[trigger] check_payload((Some(s), Some(i), Some(e)), n) by {
                assert(r == check_payload((Some(s), Some(i), Some(e)), now));
            }
        }
        r
    }

    /// A fresh credential for the holder of `claims` when those are more than
    /// two hours old at `now`, else nothing. The old credential stays valid
    /// until its own expiry: nothing is revoked.
    pub fn refresh_token_if_needed_at(&self, claims: TokenClaims, now: u64) -> (r: Result<Option<String>, SigningError>)
        ensures
            !is_stale(claims, now) ==> r == Ok::<Option<String>, SigningError>(None),
            is_stale(claims, now) ==> r matches Ok(Some(_)),
            r matches Ok(Some(t)) ==> {
                let c = claims_at(claims.sub, now, self.expire_in());
                t@ == signed_token(self.secret(), c.sub, c.iat, c.exp)
            },
    {
        if now > claims.iat && now - claims.iat > REFRESH_AFTER_SECS {
            match self.create_token_at(claims.sub, now) {
                Ok(t) => Ok(Some(t)),
                Err(e) => Err(e),
            }
        } else {
            Ok(None)
        }
    }

    /// A fresh credential when `claims` are more than two hours old now.
    pub fn refresh_token_if_needed(&self, claims: TokenClaims) -> (r: Result<Option<String>, SigningError>)
        ensures
            r is Ok,
            r matches Ok(Some(t)) ==> exists|now: u64| {
                let c = #[trigger] claims_at(claims.sub, now, self.expire_in());
                &&& is_stale(claims, now)
                &&& t@ == signed_token(self.secret(), c.sub, c.iat, c.exp)
            },
    {
        let now = now_secs();
        self.refresh_token_if_needed_at(claims, now)
    }
}

/// A request whose credential names a member of the directory.
pub struct Authenticated(pub Member);

/// A request that may or may not carry such a credential.
pub struct MaybeAuthenticated(pub Option<Member>);

impl MaybeAuthenticated {
    /// Resolves the credential of a request at time `now`: it must be
    /// present, valid, unexpired, and name a member that the directory
    /// serves. Any failure leaves the request anonymous.
    pub fn from_token_at(auth: &AuthService, directory: &GitlabService, token: Option<&str>, now: u64) -> (r: MaybeAuthenticated)
        requires
            directory.wf(),
        ensures
            token is None ==> r.0 is None,
            r.0 matches Some(m) ==> {
                &&& token matches Some(t) && check_outcome(token_payload(auth.secret(), t@), now) matches Ok(c) && c.sub == m.id
                &&& directory@.contains_key(m.id) && directory@[m.id] == m
            },
    {
        let token = match token {
            Some(t) => t,
            None => {
                return MaybeAuthenticated(None);
            },
        };
        match auth.decode_token_at(token, now) {
            Ok(claims) => MaybeAuthenticated(directory.get_cached_member(claims.sub)),
            Err(_) => MaybeAuthenticated(None),
        }
    }

    /// The member, for a handler that requires one.
    pub fn require(self) -> (r: Option<Authenticated>)
        ensures
            self.0 is None <==> r is None,
            r matches Some(a) ==> Some(a.0) == self.0,
    {
        match self.0 {
            Some(m) => Some(Authenticated(m)),
            None => None,
        }
    }
}

} // verus!
