//! Passwords, session tokens and the rules of signing up, logging in and
//! authenticating a request.

use vstd::prelude::*;

use vstd::string::StringSliceAdditionalSpecFns;

use argon2::PasswordHasher;
use argon2::PasswordVerifier;

use crate::api::{ApiError, Status};
use crate::clock::now;
use crate::claims_json::{
    claims_text, decode_claims, encode_claims, lemma_read_claims_text, read_claims_json, serde_claims,
};
use crate::text::{blank, byte_len, is_blank};

verus! {

/// Name of the cookie that carries the session token.
pub const SESSION_COOKIE: &'static str = "peekr_token";

/// How long a session token is valid, in seconds (seven days).
pub const TTL_SECS: u64 = 604800;

/// Clock skew tolerated when checking a token's expiry, in seconds.
pub const LEEWAY_SECS: u64 = 60;

/// The claims a session token carries.
#[derive(Clone, Debug, PartialEq, Eq)]
pub struct Claims {
    pub sub: i64,
    pub email: String,
    pub role: String,
    pub exp: usize,
}

impl View for Claims {
    type V = (i64, Seq<char>, Seq<char>, usize);

    open spec fn view(&self) -> Self::V {
        (self.sub, self.email@, self.role@, self.exp)
    }
}

// ---------------------------------------------------------------------------
// outside calls

/// The PHC string that Argon2 (default parameters) makes of a password and a salt.
pub uninterp spec fn argon2_phc(password: Seq<u8>, salt: Seq<char>) -> Seq<char>;

/// Whether Argon2 accepts a password against a PHC string.
pub uninterp spec fn argon2_accepts(password: Seq<u8>, phc: Seq<char>) -> bool;

/// The token that jsonwebtoken's `encode` makes (HS256, default header) of a
/// payload text under a secret.
pub uninterp spec fn hs256_token(secret: Seq<u8>, payload: Seq<char>) -> Seq<char>;

/// The payload text that jsonwebtoken's `decode` (HS256, expiry not checked)
/// recovers from a token under a secret, if the token is well formed, signed
/// with that secret and carries a numeric `exp`.
pub uninterp spec fn hs256_payload(secret: Seq<u8>, token: Seq<char>) -> Option<Seq<char>>;

/// Whether a text is the payload of some claims.
pub open spec fn is_claims_payload(p: Seq<char>) -> bool {
    exists|sub: i64, email: Seq<char>, role: Seq<char>, exp: usize|
        #[trigger] claims_text(sub, email, role, exp) == p
}

/// Whether a character is a digit of standard Base64 (`A-Z a-z 0-9 + /`).
pub open spec fn is_b64_digit(c: char) -> bool {
    let u = c as u32;
    ||| 65 <= u <= 90
    ||| 97 <= u <= 122
    ||| 48 <= u <= 57
    ||| c == '+'
    ||| c == '/'
}

/// The value (0 to 63) of a standard Base64 digit.
pub open spec fn b64_value(c: char) -> int {
    let u = c as u32;
    if 65 <= u <= 90 {
        u - 65
    } else if 97 <= u <= 122 {
        u - 97 + 26
    } else if 48 <= u <= 57 {
        u - 48 + 52
    } else if c == '+' {
        62
    } else {
        63
    }
}

/// Whether a text is the unpadded standard Base64 ("B64") of 16 bytes: 22
/// digits, the last of which carries only the 2 remaining bits.
pub open spec fn is_b64_of_16_bytes(t: Seq<char>) -> bool {
    &&& t.len() == 22
    &&& forall|i: int| 0 <= i < 22 ==> is_b64_digit(#[trigger] t[i])
    &&& b64_value(t[21]) % 16 == 0
}

/// Calls `SaltString::generate` of argon2 (password-hash) with the operating
/// system's random source. Claims: the salt is the B64 text of 16 bytes (the
/// recommended length, which `generate` fills from the random source); which
/// bytes is not claimed, they are random.
#[verifier::external_body]
fn argon2_random_salt() -> (salt: String)
    ensures
        is_b64_of_16_bytes(salt@),
{
    argon2::password_hash::SaltString::generate(&mut argon2::password_hash::rand_core::OsRng)
        .as_str()
        .to_string()
}

/// Calls `Argon2::default().hash_password` of argon2 with the given B64 salt.
/// Claims: on success the PHC string is a function of password and salt, and
/// Argon2 accepts the password against it (a hash verifies with its password).
/// With the B64 text of 16 bytes as salt, hashing succeeds for every password
/// of at most `MAX_PWD_LEN` (0xFFFF_FFFF) bytes: those are the only checks on
/// the inputs (salt characters and length, decoded salt of 8 to 64 bytes).
#[verifier::external_body]
fn argon2_hash(password: &[u8], salt: &str) -> (r: Result<String, String>)
    ensures
        r matches Ok(h) ==> h@ == argon2_phc(password@, salt@) && argon2_accepts(password@, h@),
        password@.len() <= 0xFFFF_FFFF && is_b64_of_16_bytes(salt@) ==> r is Ok,
{
    let salt = argon2::password_hash::Salt::from_b64(salt).map_err(|e| e.to_string())?;
    argon2::Argon2::default()
        .hash_password(password, salt)
        .map(|h| h.to_string())
        .map_err(|e| e.to_string())
}

/// Whether password-hash's `PasswordHash::new` parses a text as a PHC string.
pub uninterp spec fn phc_parses(phc: Seq<char>) -> bool;

/// Calls `PasswordHash::new` and `Argon2::default().verify_password` of argon2.
/// Claims: the answer is `argon2_accepts`, and it is false where `PasswordHash::new`
/// does not parse the PHC string (the `Err` arm of the body).
#[verifier::external_body]
fn argon2_verify(password: &[u8], phc: &str) -> (ok: bool)
    ensures
        ok == argon2_accepts(password@, phc@),
        !phc_parses(phc@) ==> !ok,
{
    match argon2::PasswordHash::new(phc) {
        Ok(parsed) => argon2::Argon2::default().verify_password(password, &parsed).is_ok(),
        Err(_) => false,
    }
}

/// Calls jsonwebtoken's `encode` with the default header (HS256) on the payload
/// text taken verbatim (serde_json `RawValue`). Claims: on success the token is
/// `hs256_token`; a claims payload (valid JSON, with a numeric `exp` and no
/// `aud`) is always signed, as HMAC signing takes any key; and `decode` under
/// the same secret gives such a payload back.
#[verifier::external_body]
fn jwt_sign(secret: &[u8], payload: &str) -> (r: Result<String, String>)
    ensures
        is_claims_payload(payload@) ==> r is Ok,
        r matches Ok(t) ==> t@ == hs256_token(secret@, payload@),
        r matches Ok(t) ==> (is_claims_payload(payload@) ==> hs256_payload(secret@, t@) == Some(
            payload@,
        )),
{
    let raw = serde_json::value::RawValue::from_string(payload.to_string()).map_err(
        |e| e.to_string(),
    )?;
    let key = jsonwebtoken::EncodingKey::from_secret(secret);
    jsonwebtoken::encode(&jsonwebtoken::Header::default(), &raw, &key).map_err(|e| e.to_string())
}

/// Calls jsonwebtoken's `decode` (HS256, `exp` required, expiry not checked) into
/// a serde_json `RawValue`, giving the payload text. Claims: the result is
/// `hs256_payload`.
#[verifier::external_body]
fn jwt_payload(secret: &[u8], token: &str) -> (r: Option<String>)
    ensures
        match hs256_payload(secret@, token@) {
            Some(p) => r matches Some(s) && s@ == p,
            None => r is None,
        },
{
    let mut validation = jsonwebtoken::Validation::default();
    validation.validate_exp = false;
    let key = jsonwebtoken::DecodingKey::from_secret(secret);
    jsonwebtoken::decode::<Box<serde_json::value::RawValue>>(token, &key, &validation).ok().map(
        |d| d.claims.get().to_string(),
    )
}

// ---------------------------------------------------------------------------
// passwords

/// Hashes a password with Argon2 and a fresh random salt.
pub fn hash_password(password: &str) -> (r: Result<String, String>)
    ensures
        r matches Ok(h) ==> argon2_accepts(password.spec_bytes(), h@),
        r matches Ok(h) ==> exists|salt: Seq<char>|
            is_b64_of_16_bytes(salt) && h@ == #[trigger] argon2_phc(password.spec_bytes(), salt),
        password.spec_bytes().len() <= 0xFFFF_FFFF ==> r is Ok,
{
    let salt = argon2_random_salt();
    argon2_hash(password.as_bytes(), salt.as_str())
}

/// Whether a password matches a stored PHC hash; false where the hash does not parse.
pub fn verify_password(password: &str, hash: &str) -> (ok: bool)
    ensures
        ok == argon2_accepts(password.spec_bytes(), hash@),
        !phc_parses(hash@) ==> !ok,
{
    argon2_verify(password.as_bytes(), hash)
}

// ---------------------------------------------------------------------------
// session tokens

/// The claims a payload text carries: those it was written from when it is in
/// the compact layout this library writes, else what serde reads from it in
/// any other JSON layout.
pub open spec fn payload_claims(p: Seq<char>) -> Option<(i64, Seq<char>, Seq<char>, usize)> {
    if is_claims_payload(p) {
        Some(
            choose|c: (i64, Seq<char>, Seq<char>, usize)|
                #[trigger] claims_text(c.0, c.1, c.2, c.3) == p,
        )
    } else {
        serde_claims(p)
    }
}

/// Whether a token that expires at `exp` is expired at time `now`.
pub open spec fn is_expired(exp: int, now: int) -> bool {
    exp + LEEWAY_SECS < now
}

/// The claims of a token under a secret at time `now`: it must be signed with
/// the secret, carry a claims payload and not be expired.
pub open spec fn token_claims(secret: Seq<u8>, token: Seq<char>, now: int) -> Option<
    (i64, Seq<char>, Seq<char>, usize),
> {
    match hs256_payload(secret, token) {
        Some(p) => match payload_claims(p) {
            Some(c) => if is_expired(c.3 as int, now) {
                None
            } else {
                Some(c)
            },
            None => None,
        },
        None => None,
    }
}

/// A claims payload names exactly one set of claims.
pub proof fn lemma_payload_claims(sub: i64, email: Seq<char>, role: Seq<char>, exp: usize)
    ensures
        payload_claims(claims_text(sub, email, role, exp)) == Some((sub, email, role, exp)),
{
    let p = claims_text(sub, email, role, exp);
    let w = (sub, email, role, exp);
    assert(claims_text(w.0, w.1, w.2, w.3) == p);
    assert(is_claims_payload(p));
    let c = choose|c: (i64, Seq<char>, Seq<char>, usize)|
        #[trigger] claims_text(c.0, c.1, c.2, c.3) == p;
    lemma_read_claims_text(sub, email, role, exp);
    lemma_read_claims_text(c.0, c.1, c.2, c.3);
}

/// Makes the token for a user at time `now`; it expires `TTL_SECS` later.
pub fn make_token_at(secret: &[u8], id: i64, email: &str, role: &str, now: u64) -> (r: Result<
    String,
    String,
>)
    ensures
        r is Ok <==> now + TTL_SECS <= usize::MAX,
        r matches Ok(t) ==> now + TTL_SECS <= usize::MAX && t@ == hs256_token(
            secret@,
            claims_text(id, email@, role@, (now + TTL_SECS) as usize),
        ),
        r matches Ok(t) ==> hs256_payload(secret@, t@) == Some(
            claims_text(id, email@, role@, (now + TTL_SECS) as usize),
        ),
        r matches Ok(t) ==> forall|later: int|
            later <= now + TTL_SECS + LEEWAY_SECS ==> #[trigger] token_claims(secret@, t@, later)
                == Some((id, email@, role@, (now + TTL_SECS) as usize)),
{
    if now > (usize::MAX as u64) - TTL_SECS {
        return Err("clock out of range".to_string());
    }
    let exp: usize = (now + TTL_SECS) as usize;
    let payload = encode_claims(id, email, role, exp);
    proof {
        assert(is_claims_payload(payload@));
    }
    let r = jwt_sign(secret, payload.as_str());
    proof {
        if let Ok(t) = &r {
            assert forall|later: int| later <= now + TTL_SECS + LEEWAY_SECS implies #[trigger] token_claims(
                secret@,
                t@,
                later,
            ) == Some((id, email@, role@, exp)) by {
                lemma_token_roundtrip(secret@, t@, id, email@, role@, exp, later);
            }
        }
    }
    r
}

/// Makes the token for a user, expiring `TTL_SECS` after the current time.
pub fn make_token(secret: &[u8], id: i64, email: &str, role: &str) -> (r: Result<String, String>)
    ensures
        r matches Ok(t) ==> exists|now: u64|
            now + TTL_SECS <= usize::MAX && t@ == hs256_token(
                secret@,
                #[trigger] claims_text(id, email@, role@, (now + TTL_SECS) as usize),
            ) && hs256_payload(secret@, t@) == Some(
                claims_text(id, email@, role@, (now + TTL_SECS) as usize),
            ),
{
    let now = now();
    make_token_at(secret, id, email, role, now)
}

/// The claims of a token under a secret at time `now`.
pub fn verify_token_at(secret: &[u8], token: &str, now: u64) -> (r: Option<Claims>)
    ensures
        match token_claims(secret@, token@, now as int) {
            Some(c) => r matches Some(x) && x@ == c,
            None => r is None,
        },
{
    let payload = match jwt_payload(secret, token) {
        Some(p) => p,
        None => {
            return None;
        },
    };
    let (sub, email, role, exp) = match decode_claims(payload.as_str()) {
        Some(c) => {
            proof {
                assert(claims_text(c.0, c.1@, c.2@, c.3) == payload@);
                lemma_payload_claims(c.0, c.1@, c.2@, c.3);
            }
            c
        },
        None => {
            proof {
                if is_claims_payload(payload@) {
                    let c = choose|c: (i64, Seq<char>, Seq<char>, usize)|
                        #[trigger] claims_text(c.0, c.1, c.2, c.3) == payload@;
                    assert(claims_text(c.0, c.1, c.2, c.3) == payload@);
                }
            }
            match read_claims_json(payload.as_str()) {
                Some(c) => c,
                None => {
                    return None;
                },
            }
        },
    };
    assert(payload_claims(payload@) == Some((sub, email@, role@, exp)));
    if (exp as u128) + (LEEWAY_SECS as u128) < (now as u128) {
        None
    } else {
        Some(Claims { sub, email, role, exp })
    }
}

/// The claims of a token under a secret, checked against the current time.
pub fn verify_token(secret: &[u8], token: &str) -> (r: Option<Claims>)
    ensures
        hs256_payload(secret@, token@) is None ==> r is None,
        token_claims(secret@, token@, u64::MAX as int) matches Some(c) ==> r matches Some(x)
            && x@ == c,
        r matches Some(x) ==> exists|now: u64| #[trigger] token_claims(secret@, token@, now as int)
            == Some(x@),
{
    let now = now();
    let r = verify_token_at(secret, token, now);
    proof {
        if r is Some {
            assert(token_claims(secret@, token@, now as int) == Some(r->0@));
        }
        if token_claims(secret@, token@, u64::MAX as int) is Some {
            lemma_token_claims_later(secret@, token@, now as int, u64::MAX as int);
        }
    }
    r
}

/// A token whose claims hold at some time held them, the same, at every
/// earlier time: expiry is the only thing that changes with the clock.
pub proof fn lemma_token_claims_later(secret: Seq<u8>, token: Seq<char>, earlier: int, later: int)
    requires
        earlier <= later,
        token_claims(secret, token, later) is Some,
    ensures
        token_claims(secret, token, earlier) == token_claims(secret, token, later),
{
}

/// A token made for some claims gives those claims back when checked, under the
/// same secret, at any time before it expires (plus the tolerated skew).
pub proof fn lemma_token_roundtrip(
    secret: Seq<u8>,
    token: Seq<char>,
    sub: i64,
    email: Seq<char>,
    role: Seq<char>,
    exp: usize,
    now: int,
)
    requires
        hs256_payload(secret, token) == Some(claims_text(sub, email, role, exp)),
        now <= exp + LEEWAY_SECS,
    ensures
        token_claims(secret, token, now) == Some((sub, email, role, exp)),
{
    lemma_payload_claims(sub, email, role, exp);
}

/// The same token, once expired, is refused.
pub proof fn lemma_token_expires(
    secret: Seq<u8>,
    token: Seq<char>,
    sub: i64,
    email: Seq<char>,
    role: Seq<char>,
    exp: usize,
    now: int,
)
    requires
        hs256_payload(secret, token) == Some(claims_text(sub, email, role, exp)),
        now > exp + LEEWAY_SECS,
    ensures
        token_claims(secret, token, now) is None,
{
    lemma_payload_claims(sub, email, role, exp);
}

// ---------------------------------------------------------------------------
// users and the handlers' rules

/// What a user submits to sign up or log in.
#[derive(Clone, Debug, PartialEq, Eq)]
pub struct Credentials {
    pub email: String,
    pub password: String,
}

/// What the service tells about a user.
#[derive(Clone, Debug, PartialEq, Eq)]
pub struct PublicUser {
    pub id: i64,
    pub email: String,
    pub role: String,
}

/// The user a request was authenticated as.
#[derive(Clone, Debug, PartialEq, Eq)]
pub struct AuthUser {
    pub id: i64,
    pub email: String,
    pub role: String,
}

/// A row of the `users` table.
#[derive(Clone, Debug, PartialEq, Eq)]
pub struct UserRow {
    pub id: i64,
    pub email: String,
    pub password_hash: String,
    pub role: String,
}

/// A new session: the token for the cookie and the user it belongs to.
#[derive(Clone, Debug, PartialEq, Eq)]
pub struct Session {
    pub token: String,
    pub user: PublicUser,
}

/// The role every user signs up with.
pub const ADMIN_ROLE: &'static str = "admin";

/// The minimum length of a password, in bytes.
pub const MIN_PASSWORD_LEN: usize = 8;

/// Whether the setup screen is due: no user exists yet. A count that could not
/// be read counts as zero.
pub fn first_run(user_count: Option<i64>) -> (b: bool)
    ensures
        b == match user_count {
            Some(n) => n == 0,
            None => true,
        },
{
    match user_count {
        Some(n) => n == 0,
        None => true,
    }
}

/// The checks on a sign-up before anything is written: only the very first user
/// may sign up, with a non-blank email and a password of at least
/// `MIN_PASSWORD_LEN` bytes.
pub fn signup_validate(user_count: i64, creds: &Credentials) -> (r: Result<(), ApiError>)
    ensures
        match r {
            Ok(()) => user_count <= 0 && !blank(creds.email@)
                && byte_len(creds.password@) >= MIN_PASSWORD_LEN,
            Err(e) => if user_count > 0 {
                e.status == Status::Forbidden && e.message@ == "registration closed"@
            } else {
                (blank(creds.email@) || byte_len(creds.password@)
                    < MIN_PASSWORD_LEN) && e.status == Status::BadRequest && e.message@
                    == "email required, password >= 8 chars"@
            },
        },
{
    if user_count > 0 {
        return Err(ApiError::new(Status::Forbidden, "registration closed"));
    }
    if is_blank(creds.email.as_str()) || creds.password.as_str().len() < MIN_PASSWORD_LEN {
        return Err(ApiError::new(Status::BadRequest, "email required, password >= 8 chars"));
    }
    Ok(())
}


/// Sign-up up to the write: the checks of `signup_validate`, then the password hash.
pub fn signup_prepare(user_count: i64, creds: &Credentials) -> (r: Result<String, ApiError>)
    ensures
        match r {
            Ok(h) => user_count <= 0 && !blank(creds.email@) && byte_len(creds.password@)
                >= MIN_PASSWORD_LEN && argon2_accepts(vstd::utf8::encode_utf8(creds.password@), h@),
            Err(e) => if user_count > 0 {
                e.status == Status::Forbidden && e.message@ == "registration closed"@
            } else if blank(creds.email@) || byte_len(creds.password@) < MIN_PASSWORD_LEN {
                e.status == Status::BadRequest && e.message@
                    == "email required, password >= 8 chars"@
            } else {
                e.status == Status::InternalServerError && vstd::utf8::encode_utf8(
                    creds.password@,
                ).len() > 0xFFFF_FFFF
            },
        },
        user_count <= 0 && !blank(creds.email@) && byte_len(creds.password@) >= MIN_PASSWORD_LEN
            && vstd::utf8::encode_utf8(creds.password@).len() <= 0xFFFF_FFFF ==> r is Ok,
{
    match signup_validate(user_count, creds) {
        Ok(()) => {},
        Err(e) => {
            return Err(e);
        },
    }
    let password = creds.password.as_str();
    assert(password.spec_bytes() == vstd::utf8::encode_utf8(creds.password@));
    match hash_password(password) {
        Ok(h) => Ok(h),
        Err(msg) => Err(ApiError { status: Status::InternalServerError, message: msg }),
    }
}

/// Opens a session for a user at time `now`: a token expiring `TTL_SECS` later
/// and the user's public record. It fails (500) only where that expiry would
/// pass `usize::MAX`.
pub fn start_session_at(secret: &[u8], id: i64, email: &str, role: &str, now: u64) -> (r: Result<
    Session,
    ApiError,
>)
    ensures
        r is Ok <==> now + TTL_SECS <= usize::MAX,
        match r {
            Ok(s) => s.user.id == id && s.user.email@ == email@ && s.user.role@ == role@
                && hs256_payload(secret@, s.token@) == Some(
                claims_text(id, email@, role@, (now + TTL_SECS) as usize),
            ) && forall|later: int|
                later <= now + TTL_SECS + LEEWAY_SECS ==> #[trigger] token_claims(
                    secret@,
                    s.token@,
                    later,
                ) == Some((id, email@, role@, (now + TTL_SECS) as usize)),
            Err(e) => e.status == Status::InternalServerError,
        },
{
    match make_token_at(secret, id, email, role, now) {
        Ok(token) => Ok(
            Session {
                token,
                user: PublicUser { id, email: email.to_owned(), role: role.to_owned() },
            },
        ),
        Err(msg) => Err(ApiError { status: Status::InternalServerError, message: msg }),
    }
}

/// Opens a session for a user at the current time.
pub fn start_session(secret: &[u8], id: i64, email: &str, role: &str) -> (r: Result<
    Session,
    ApiError,
>)
    ensures
        match r {
            Ok(s) => s.user.id == id && s.user.email@ == email@ && s.user.role@ == role@
                && exists|now: u64|
                now + TTL_SECS <= usize::MAX && hs256_payload(secret@, s.token@) == Some(
                    #[trigger] claims_text(id, email@, role@, (now + TTL_SECS) as usize),
                ),
            Err(e) => e.status == Status::InternalServerError,
        },
{
    let now = now();
    let r = start_session_at(secret, id, email, role, now);
    proof {
        if let Ok(s) = &r {
            assert(hs256_payload(secret@, s.token@) == Some(
                claims_text(id, email@, role@, (now + TTL_SECS) as usize),
            ));
        }
    }
    r
}

/// Logging in at time `now`, given the row stored under the submitted email
/// (if any): the password must match the stored hash; then a session opens for
/// that row.
pub fn login_at(secret: &[u8], creds: &Credentials, row: Option<UserRow>, now: u64) -> (r: Result<
    Session,
    ApiError,
>)
    ensures
        match row {
            None => r matches Err(e) && e.status == Status::Unauthorized && e.message@
                == "invalid credentials"@,
            Some(u) => if !argon2_accepts(
                vstd::utf8::encode_utf8(creds.password@),
                u.password_hash@,
            ) {
                r matches Err(e) && e.status == Status::Unauthorized && e.message@
                    == "invalid credentials"@
            } else {
                &&& (r is Ok <==> now + TTL_SECS <= usize::MAX)
                &&& match r {
                    Ok(s) => s.user.id == u.id && s.user.email@ == u.email@ && s.user.role@
                        == u.role@ && hs256_payload(secret@, s.token@) == Some(
                        claims_text(u.id, u.email@, u.role@, (now + TTL_SECS) as usize),
                    ) && forall|later: int|
                        later <= now + TTL_SECS + LEEWAY_SECS ==> #[trigger] token_claims(
                            secret@,
                            s.token@,
                            later,
                        ) == Some((u.id, u.email@, u.role@, (now + TTL_SECS) as usize)),
                    Err(e) => e.status == Status::InternalServerError,
                }
            },
        },
{
    let user = match row {
        Some(u) => u,
        None => {
            return Err(ApiError::new(Status::Unauthorized, "invalid credentials"));
        },
    };
    if !verify_password(creds.password.as_str(), user.password_hash.as_str()) {
        return Err(ApiError::new(Status::Unauthorized, "invalid credentials"));
    }
    start_session_at(secret, user.id, user.email.as_str(), user.role.as_str(), now)
}

/// Logging in at the current time.
pub fn login(secret: &[u8], creds: &Credentials, row: Option<UserRow>) -> (r: Result<
    Session,
    ApiError,
>)
    ensures
        match row {
            None => r matches Err(e) && e.status == Status::Unauthorized && e.message@
                == "invalid credentials"@,
            Some(u) => if !argon2_accepts(
                vstd::utf8::encode_utf8(creds.password@),
                u.password_hash@,
            ) {
                r matches Err(e) && e.status == Status::Unauthorized && e.message@
                    == "invalid credentials"@
            } else {
                match r {
                    Ok(s) => s.user.id == u.id && s.user.email@ == u.email@ && s.user.role@
                        == u.role@ && exists|now: u64|
                        now + TTL_SECS <= usize::MAX && hs256_payload(secret@, s.token@)
                            == Some(
                            #[trigger] claims_text(u.id, u.email@, u.role@, (now + TTL_SECS) as usize),
                        ),
                    Err(e) => e.status == Status::InternalServerError,
                }
            },
        },
{
    let now = now();
    let ghost given = row;
    let r = login_at(secret, creds, row, now);
    proof {
        if let Some(u) = given {
            if let Ok(s) = &r {
                assert(hs256_payload(secret@, s.token@) == Some(
                    claims_text(u.id, u.email@, u.role@, (now + TTL_SECS) as usize),
                ));
            }
        }
    }
    r
}

/// The public record of the authenticated user.
pub fn me(user: AuthUser) -> (p: PublicUser)
    ensures
        p.id == user.id,
        p.email@ == user.email@,
        p.role@ == user.role@,
{
    PublicUser { id: user.id, email: user.email, role: user.role }
}

/// The user a request is authenticated as at time `now`, from the session
/// cookie's value: there must be a cookie, and its token must carry claims
/// under the secret that have not expired by `now`.
pub fn authenticate_at(secret: &[u8], cookie: Option<&str>, now: u64) -> (r: Result<
    AuthUser,
    ApiError,
>)
    ensures
        match cookie {
            None => r matches Err(e) && e.status == Status::Unauthorized,
            Some(t) => match token_claims(secret@, t@, now as int) {
                Some(c) => r matches Ok(u) && u.id == c.0 && u.email@ == c.1 && u.role@ == c.2,
                None => r matches Err(e) && e.status == Status::Unauthorized,
            },
        },
{
    let token = match cookie {
        Some(t) => t,
        None => {
            return Err(ApiError::new(Status::Unauthorized, ""));
        },
    };
    match verify_token_at(secret, token, now) {
        Some(c) => Ok(AuthUser { id: c.sub, email: c.email, role: c.role }),
        None => Err(ApiError::new(Status::Unauthorized, "")),
    }
}

/// The user a request is authenticated as, checked against the current time.
pub fn authenticate(secret: &[u8], cookie: Option<&str>) -> (r: Result<AuthUser, ApiError>)
    ensures
        cookie is None ==> r is Err,
        cookie matches Some(t) && hs256_payload(secret@, t@) is None ==> r is Err,
        r matches Err(e) ==> e.status == Status::Unauthorized,
        r matches Ok(u) ==> cookie matches Some(t) && exists|now: u64|
            (#[trigger] token_claims(secret@, t@, now as int) matches Some(c) && c.0 == u.id && c.1
                == u.email@ && c.2 == u.role@),
        match cookie {
            Some(t) => match token_claims(secret@, t@, u64::MAX as int) {
                Some(c) => r matches Ok(u) && u.id == c.0 && u.email@ == c.1 && u.role@ == c.2,
                None => true,
            },
            None => true,
        },
{
    let now = now();
    let r = authenticate_at(secret, cookie, now);
    proof {
        if r is Ok {
            assert(token_claims(secret@, cookie->0@, now as int) is Some);
        }
        if let Some(t) = cookie {
            if token_claims(secret@, t@, u64::MAX as int) is Some {
                lemma_token_claims_later(secret@, t@, now as int, u64::MAX as int);
                assert(token_claims(secret@, t@, now as int) == token_claims(
                    secret@,
                    t@,
                    u64::MAX as int,
                ));
                assert(r is Ok);
            }
        }
    }
    r
}

/// Whether a request may pass to the protected routes.
pub fn is_authorized(secret: &[u8], cookie: Option<&str>) -> (b: bool)
    ensures
        cookie is None ==> !b,
        cookie matches Some(t) && hs256_payload(secret@, t@) is None ==> !b,
        b ==> (cookie matches Some(t) && exists|now: u64|
            (#[trigger] token_claims(secret@, t@, now as int)) is Some),
        cookie matches Some(t) && token_claims(secret@, t@, u64::MAX as int) is Some ==> b,
{
    let r = authenticate(secret, cookie);
    proof {
        if let Ok(u) = &r {
            let t = cookie->0;
            let now = choose|now: u64|
                (#[trigger] token_claims(secret@, t@, now as int) matches Some(c) && c.0 == u.id
                    && c.1 == u.email@ && c.2 == u.role@);
            assert(token_claims(secret@, t@, now as int) is Some);
        }
    }
    r.is_ok()
}

} // verus!
