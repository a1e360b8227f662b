use peekr::api::Status;
use peekr::hosts::{check_host, create_host, host_list, is_local, LOCAL_HOST, OFFLINE, ONLINE};

#[test]
fn only_local_host_is_served_directly() {
    assert!(check_host("local").is_ok());
    assert_eq!(check_host("remote"), Err(Status::NotFound));
    assert_eq!(check_host(""), Err(Status::NotFound));
    assert!(is_local(LOCAL_HOST));
    assert!(!is_local("Local"));
}

#[test]
fn host_list_puts_local_first_then_rows_with_status() {
    let rows = vec![
        ("h1".to_string(), "alpha".to_string()),
        ("h2".to_string(), "beta".to_string()),
    ];
    let online = vec!["h2".to_string()];
    let list = host_list(None, rows, &online);
    assert_eq!(list.len(), 3);
    assert_eq!(list[0].id, "local");
    assert_eq!(list[0].name, "local");
    assert_eq!(list[0].status, ONLINE);
    assert_eq!((list[1].id.as_str(), list[1].name.as_str(), list[1].status), ("h1", "alpha", OFFLINE));
    assert_eq!((list[2].id.as_str(), list[2].name.as_str(), list[2].status), ("h2", "beta", "online"));
}

#[test]
fn host_list_uses_configured_local_name() {
    let list = host_list(Some("my-box".to_string()), Vec::new(), &Vec::new());
    assert_eq!(list.len(), 1);
    assert_eq!(list[0].id, "local");
    assert_eq!(list[0].name, "my-box");
}

#[test]
fn create_host_requires_a_name() {
    let e = create_host("   ".to_string()).unwrap_err();
    assert_eq!(e.status, Status::BadRequest);
    assert_eq!(e.message, "name required");
    assert_eq!(e.status.code(), 400);
    assert!(create_host(String::new()).is_err());
}

#[test]
fn create_host_makes_hex_id_and_token() {
    let h = create_host("edge".to_string()).unwrap();
    assert_eq!(h.name, "edge");
    assert_eq!(h.id.len(), 12);
    assert_eq!(h.token.len(), 48);
    assert!(h.id.chars().chain(h.token.chars()).all(|c| c.is_ascii_hexdigit() && !c.is_ascii_uppercase()));
    let other = create_host("edge".to_string()).unwrap();
    assert_ne!(h.token, other.token);
}
