use peekr::api::{ApiError, Status};
use peekr::assets::{asset_path, static_answer, AssetAnswer, HTML_TYPE, INDEX_HTML};
use peekr::clock::{millis_of_reading, now, now_ms, secs_of_reading};
use peekr::random::{hex_encode, load_secret, rand_hex};
use peekr::text::{is_blank, is_white_space};

#[test]
fn status_codes() {
    let all = [
        (Status::Success, 200),
        (Status::NoContent, 204),
        (Status::BadRequest, 400),
        (Status::Unauthorized, 401),
        (Status::Forbidden, 403),
        (Status::NotFound, 404),
        (Status::InternalServerError, 500),
        (Status::BadGateway, 502),
        (Status::ServiceUnavailable, 503),
    ];
    for (s, code) in all {
        assert_eq!(s.code(), code);
    }
    let e = ApiError::new(Status::Forbidden, "registration closed");
    assert_eq!((e.status, e.message.as_str()), (Status::Forbidden, "registration closed"));
}

#[test]
fn asset_paths() {
    assert_eq!(asset_path("/"), "index.html");
    assert_eq!(asset_path(""), "index.html");
    assert_eq!(asset_path("///"), "index.html");
    assert_eq!(asset_path("/assets/app.js"), "assets/app.js");
    assert_eq!(asset_path("//x.css"), "x.css");
    assert_eq!(INDEX_HTML, "index.html");
}

#[test]
fn asset_answers() {
    match static_answer("assets/app.js", true, true) {
        AssetAnswer::File { path, content_type } => {
            assert_eq!(path, "assets/app.js");
            assert!(content_type.ends_with("javascript"), "{content_type}");
        }
        other => panic!("{other:?}"),
    }
    match static_answer("favicon.unknownext", true, false) {
        AssetAnswer::File { content_type, .. } => assert_eq!(content_type, "application/octet-stream"),
        other => panic!("{other:?}"),
    }
    assert_eq!(static_answer("dashboard/hosts", false, true), AssetAnswer::IndexPage);
    assert_eq!(static_answer("dashboard/hosts", false, false), AssetAnswer::NotFound);
    assert_eq!(HTML_TYPE, "text/html");
}

#[test]
fn clock_readings() {
    assert_eq!(secs_of_reading(Some(1_700_000_123_456)), 1_700_000_123);
    assert_eq!(secs_of_reading(Some(999)), 0);
    assert_eq!(secs_of_reading(None), 0);
    assert_eq!(millis_of_reading(Some(1_700_000_123_456)), 1_700_000_123_456);
    assert_eq!(millis_of_reading(Some((1u128 << 64) + 5)), 5);
    assert_eq!(millis_of_reading(None), 0);
}

#[test]
fn clock_is_after_2020() {
    let s = now();
    let ms = now_ms();
    assert!(s > 1_577_836_800);
    assert!(ms / 1000 >= s);
    assert!(ms / 1000 - s < 60);
}

#[test]
fn hex_encoding() {
    assert_eq!(hex_encode(&[0x00, 0x0f, 0xa0, 0xff]), "000fa0ff");
    assert_eq!(hex_encode(&[]), "");
}

#[test]
fn random_hex_has_the_asked_length() {
    let a = rand_hex(6);
    assert_eq!(a.len(), 12);
    assert!(a.chars().all(|c| matches!(c, '0'..='9' | 'a'..='f')));
    assert_eq!(rand_hex(0), "");
    assert_ne!(rand_hex(24), rand_hex(24));
}

#[test]
fn secret_from_config_or_random() {
    assert_eq!(load_secret(Some("s3cret".to_string())), b"s3cret".to_vec());
    let a = load_secret(None);
    let b = load_secret(None);
    assert_eq!(a.len(), 32);
    assert_ne!(a, b);
}

#[test]
fn white_space_is_what_std_calls_white_space() {
    for u in 0u32..=0x10FFFF {
        if let Some(c) = char::from_u32(u) {
            assert_eq!(is_white_space(c), c.is_whitespace(), "{u:#x}");
        }
    }
    assert!(is_blank(" \t\n\u{3000}"));
    assert!(is_blank(""));
    assert!(!is_blank("  x "));
}
