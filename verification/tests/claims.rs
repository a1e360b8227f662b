use peekr::claims_json::{decode_claims, encode_claims, read_claims_json};

#[test]
fn claims_encode_in_field_order() {
    assert_eq!(
        encode_claims(42, "a@b.c", "admin", 1700000000),
        r#"{"sub":42,"email":"a@b.c","role":"admin","exp":1700000000}"#
    );
    assert_eq!(encode_claims(-7, "", "", 0), r#"{"sub":-7,"email":"","role":"","exp":0}"#);
}

#[test]
fn claims_escape_strings_as_json() {
    assert_eq!(
        encode_claims(1, "a\"b\\c", "x\ny\tz\u{1}", 5),
        "{\"sub\":1,\"email\":\"a\\\"b\\\\c\",\"role\":\"x\\ny\\tz\\u0001\",\"exp\":5}"
    );
    assert_eq!(encode_claims(1, "é/ü", "r", 2), "{\"sub\":1,\"email\":\"é/ü\",\"role\":\"r\",\"exp\":2}");
}

#[test]
fn claims_decode_what_was_encoded() {
    let cases: [(i64, &str, &str, usize); 4] = [
        (42, "a@b.c", "admin", 1700000000),
        (i64::MIN, "q\"uo\\te\r\n\u{1f}", "", 0),
        (i64::MAX, "ünïcødé", "viewer", usize::MAX),
        (0, "\u{8}\u{c}", "\t", 9),
    ];
    for (sub, email, role, exp) in cases {
        let text = encode_claims(sub, email, role, exp);
        assert_eq!(
            decode_claims(&text),
            Some((sub, email.to_string(), role.to_string(), exp))
        );
    }
}

#[test]
fn claims_refuse_other_texts() {
    assert_eq!(decode_claims(""), None);
    assert_eq!(decode_claims("not json"), None);
    // other key order, spacing or number forms are not this payload
    assert_eq!(decode_claims(r#"{"email":"a","sub":1,"role":"r","exp":2}"#), None);
    assert_eq!(decode_claims(r#"{"sub": 1,"email":"a","role":"r","exp":2}"#), None);
    assert_eq!(decode_claims(r#"{"sub":01,"email":"a","role":"r","exp":2}"#), None);
    assert_eq!(decode_claims(r#"{"sub":1,"email":"a","role":"r","exp":-2}"#), None);
    assert_eq!(decode_claims(r#"{"sub":1,"email":"a","role":"r","exp":2} "#), None);
    assert_eq!(decode_claims(r#"{"sub":1,"email":"\u0041","role":"r","exp":2}"#), None);
}

#[test]
fn claims_in_any_json_layout_are_read() {
    assert_eq!(
        read_claims_json(r#"{"role":"r","sub":1,"exp":2,"email":"e"}"#),
        Some((1, "e".to_string(), "r".to_string(), 2))
    );
    assert_eq!(
        read_claims_json(
            r#" { "exp" : 2000 , "role":"ad\/min", "extra":[1,{"x":null}], "email":"\u0061@b.c", "sub": -4 } "#
        ),
        Some((-4, "a@b.c".to_string(), "ad/min".to_string(), 2000))
    );
    // serde_json reads `-0` as a float, which is no `i64`
    assert_eq!(read_claims_json(r#"{"sub":-0,"email":"a","role":"r","exp":5}"#), None);
    assert_eq!(
        read_claims_json(r#"[7,"e@f.g","admin",3000]"#),
        Some((7, "e@f.g".to_string(), "admin".to_string(), 3000))
    );
    // wrong types, missing keys, negative expiry, not JSON
    assert_eq!(read_claims_json(r#"{"sub":"1","email":"a","role":"r","exp":5}"#), None);
    assert_eq!(read_claims_json(r#"{"sub":1,"email":"a","role":"r"}"#), None);
    assert_eq!(read_claims_json(r#"{"sub":1,"email":"a","role":"r","exp":-5}"#), None);
    assert_eq!(read_claims_json(r#"{"sub":1.5,"email":"a","role":"r","exp":5}"#), None);
    assert_eq!(read_claims_json(r#"[7,"e","r"]"#), None);
    assert_eq!(read_claims_json("nope"), None);
}
