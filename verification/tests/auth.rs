use peekr::api::Status;
use peekr::auth::{
    authenticate, authenticate_at, first_run, login_at, start_session_at, hash_password, is_authorized, login, make_token, make_token_at,
    me, signup_prepare, signup_validate, start_session, verify_password, verify_token,
    verify_token_at, AuthUser, Credentials, UserRow, ADMIN_ROLE, LEEWAY_SECS, TTL_SECS,
};

#[test]
fn password_roundtrip() {
    let hash = hash_password("hunter2-secret").unwrap();
    assert!(verify_password("hunter2-secret", &hash));
    assert!(!verify_password("wrong", &hash));
}

#[test]
fn token_roundtrip() {
    let secret = b"test-secret-key";
    let token = make_token(secret, 42, "a@b.c", "admin").unwrap();
    let claims = verify_token(secret, &token).expect("valid");
    assert_eq!(claims.sub, 42);
    assert_eq!(claims.email, "a@b.c");
    assert_eq!(claims.role, "admin");
}

#[test]
fn token_rejects_wrong_secret_and_garbage() {
    let token = make_token(b"secret-a", 1, "x@y.z", "admin").unwrap();
    assert!(verify_token(b"secret-b", &token).is_none());
    assert!(verify_token(b"secret-a", "not-a-token").is_none());
}

#[test]
fn password_hashes_differ_by_salt() {
    let a = hash_password("same-password").unwrap();
    let b = hash_password("same-password").unwrap();
    assert_ne!(a, b);
    assert!(verify_password("same-password", &a));
    assert!(verify_password("same-password", &b));
}

#[test]
fn verify_password_rejects_unparsable_hash() {
    assert!(!verify_password("anything", "not a phc string"));
    assert!(!verify_password("anything", ""));
}

#[test]
fn token_expiry_is_checked_against_the_clock() {
    let secret = b"k";
    let now = 1_700_000_000u64;
    let token = make_token_at(secret, 7, "e@x.y", "admin", now).unwrap();
    let exp = now + TTL_SECS;
    let c = verify_token_at(secret, &token, now).unwrap();
    assert_eq!(c.exp as u64, exp);
    assert_eq!(c.sub, 7);
    // still valid within the tolerated skew
    assert!(verify_token_at(secret, &token, exp + LEEWAY_SECS).is_some());
    // refused once past it
    assert!(verify_token_at(secret, &token, exp + LEEWAY_SECS + 1).is_none());
}

#[test]
fn token_with_awkward_email_roundtrips() {
    let secret = b"s";
    let email = "we\"ird\\na\u{1}me\n@é.x";
    let token = make_token_at(secret, -5, email, "ro\tle", 100).unwrap();
    let c = verify_token_at(secret, &token, 100).unwrap();
    assert_eq!(c.sub, -5);
    assert_eq!(c.email, email);
    assert_eq!(c.role, "ro\tle");
    let min = make_token_at(secret, i64::MIN, "", "", 0).unwrap();
    assert_eq!(verify_token_at(secret, &min, 0).unwrap().sub, i64::MIN);
}

#[test]
fn make_token_refuses_clock_overflow() {
    assert!(make_token_at(b"k", 1, "a", "b", u64::MAX - 10).is_err());
    let last = (usize::MAX as u64) - TTL_SECS;
    let t = make_token_at(b"k", 1, "a", "b", last).unwrap();
    assert_eq!(verify_token_at(b"k", &t, last).unwrap().exp, usize::MAX);
    assert!(make_token_at(b"k", 1, "a", "b", last + 1).is_err());
}

#[test]
fn first_run_only_without_users() {
    assert!(first_run(Some(0)));
    assert!(!first_run(Some(3)));
    assert!(first_run(None));
}

fn creds(email: &str, password: &str) -> Credentials {
    Credentials { email: email.to_string(), password: password.to_string() }
}

#[test]
fn signup_rules() {
    let e = signup_validate(1, &creds("a@b.c", "password123")).unwrap_err();
    assert_eq!(e.status, Status::Forbidden);
    assert_eq!(e.message, "registration closed");
    let e = signup_validate(0, &creds("   ", "password123")).unwrap_err();
    assert_eq!(e.status, Status::BadRequest);
    assert_eq!(e.message, "email required, password >= 8 chars");
    let e = signup_validate(0, &creds("a@b.c", "short")).unwrap_err();
    assert_eq!(e.status.code(), 400);
    assert!(signup_validate(0, &creds("a@b.c", "12345678")).is_ok());
    let hash = signup_prepare(0, &creds("a@b.c", "password123")).unwrap();
    assert!(verify_password("password123", &hash));
}

#[test]
fn login_rules() {
    let secret = b"login-secret";
    let e = login(secret, &creds("a@b.c", "password123"), None).unwrap_err();
    assert_eq!(e.status, Status::Unauthorized);
    assert_eq!(e.message, "invalid credentials");
    let hash = hash_password("password123").unwrap();
    let row = || UserRow {
        id: 9,
        email: "a@b.c".to_string(),
        password_hash: hash.clone(),
        role: "admin".to_string(),
    };
    let e = login(secret, &creds("a@b.c", "nope"), Some(row())).unwrap_err();
    assert_eq!(e.status, Status::Unauthorized);
    let s = login(secret, &creds("a@b.c", "password123"), Some(row())).unwrap();
    assert_eq!(s.user.id, 9);
    assert_eq!(s.user.email, "a@b.c");
    assert_eq!(s.user.role, "admin");
    let c = verify_token(secret, &s.token).unwrap();
    assert_eq!(c.sub, 9);
}

#[test]
fn session_and_authentication() {
    let secret = b"sess";
    let s = start_session(secret, 3, "u@v.w", "admin").unwrap();
    let u = authenticate(secret, Some(&s.token)).ok().unwrap();
    assert_eq!((u.id, u.email.as_str(), u.role.as_str()), (3, "u@v.w", "admin"));
    assert!(is_authorized(secret, Some(&s.token)));
    assert!(!is_authorized(b"other", Some(&s.token)));
    assert_eq!(authenticate(secret, None).err().unwrap().status.code(), 401);
    assert!(authenticate(secret, Some("garbage")).is_err());
    let p = me(AuthUser { id: 1, email: "m@n.o".to_string(), role: "admin".to_string() });
    assert_eq!((p.id, p.email.as_str(), p.role.as_str()), (1, "m@n.o", "admin"));
}

#[test]
fn authentication_at_a_given_time() {
    let secret = b"at";
    let token = make_token_at(secret, 11, "t@u.v", "admin", 1_000).unwrap();
    let exp = 1_000 + TTL_SECS;
    let u = authenticate_at(secret, Some(&token), exp + LEEWAY_SECS).ok().unwrap();
    assert_eq!((u.id, u.email.as_str(), u.role.as_str()), (11, "t@u.v", "admin"));
    let e = authenticate_at(secret, Some(&token), exp + LEEWAY_SECS + 1).err().unwrap();
    assert_eq!(e.status, Status::Unauthorized);
    assert!(authenticate_at(b"other", Some(&token), 1_000).is_err());
    assert!(authenticate_at(secret, None, 1_000).is_err());
}

#[test]
fn token_is_a_standard_hs256_jwt() {
    let token = make_token_at(b"k", 1, "a", "b", 0).unwrap();
    let parts: Vec<&str> = token.split('.').collect();
    assert_eq!(parts.len(), 3);
    // the header is jsonwebtoken's default: {"typ":"JWT","alg":"HS256"}
    assert_eq!(parts[0], "eyJ0eXAiOiJKV1QiLCJhbGciOiJIUzI1NiJ9");
}

#[test]
fn auth_flow_rules() {
    let secret = b"test-secret";
    // a fresh service asks for setup, and protected routes refuse a request without a session
    assert!(first_run(Some(0)));
    assert!(!is_authorized(secret, None));
    // the first user signs up and gets a session
    let creds = creds("a@b.c", "password123");
    let hash = signup_prepare(0, &creds).unwrap();
    assert!(verify_password("password123", &hash));
    let s = start_session(secret, 1, &creds.email, ADMIN_ROLE).unwrap();
    assert_eq!(s.user.role, "admin");
    let u = authenticate(secret, Some(&s.token)).ok().unwrap();
    assert_eq!(me(u).email, "a@b.c");
    assert!(is_authorized(secret, Some(&s.token)));
    // a second sign-up is refused
    let e = signup_prepare(1, &creds_of("x@y.z")).unwrap_err();
    assert_eq!(e.status.code(), 403);
    assert!(!first_run(Some(1)));
}

fn creds_of(email: &str) -> Credentials {
    creds(email, "password123")
}

fn sign(secret: &[u8], payload: &str) -> String {
    let raw = serde_json::value::RawValue::from_string(payload.to_string()).unwrap();
    jsonwebtoken::encode(
        &jsonwebtoken::Header::default(),
        &raw,
        &jsonwebtoken::EncodingKey::from_secret(secret),
    )
    .unwrap()
}

#[test]
fn tokens_in_other_json_layouts_are_accepted() {
    let secret = b"layout";
    let reordered = sign(secret, r#"{"email":"r@s.t","exp":1000000,"role":"viewer","sub":5}"#);
    let c = verify_token_at(secret, &reordered, 0).unwrap();
    assert_eq!((c.sub, c.email.as_str(), c.role.as_str(), c.exp), (5, "r@s.t", "viewer", 1000000));
    assert!(verify_token_at(secret, &reordered, 1000000 + LEEWAY_SECS + 1).is_none());
    let spaced = sign(secret, r#"{ "sub" : 3, "email" : "a\/b", "role":"admin", "iat": 1, "exp": 50 }"#);
    let c = verify_token_at(secret, &spaced, 0).unwrap();
    assert_eq!((c.sub, c.email.as_str(), c.role.as_str(), c.exp), (3, "a/b", "admin", 50));
    let wrong_type = sign(secret, r#"{"sub":"3","email":"a","role":"admin","exp":50}"#);
    assert!(verify_token_at(secret, &wrong_type, 0).is_none());
}

#[test]
fn sessions_at_a_given_time() {
    let secret = b"at-time";
    let s = start_session_at(secret, 4, "p@q.r", "admin", 1_000).unwrap();
    let c = verify_token_at(secret, &s.token, 1_000).unwrap();
    assert_eq!((c.sub, c.exp as u64), (4, 1_000 + TTL_SECS));
    assert_eq!(start_session_at(secret, 4, "p@q.r", "admin", u64::MAX).unwrap_err().status.code(), 500);
    let hash = hash_password("password123").unwrap();
    let row = UserRow { id: 8, email: "p@q.r".to_string(), password_hash: hash, role: "admin".to_string() };
    let s = login_at(secret, &creds("p@q.r", "password123"), Some(row.clone()), 2_000).unwrap();
    assert_eq!(s.user.id, 8);
    assert_eq!(verify_token_at(secret, &s.token, 2_000).unwrap().exp as u64, 2_000 + TTL_SECS);
    let e = login_at(secret, &creds("p@q.r", "wrong-pass"), Some(row), 2_000).unwrap_err();
    assert_eq!(e.status, Status::Unauthorized);
}
