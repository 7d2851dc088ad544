use gomoku::auth::{resolve_identity, AuthError, Claims, EnterRoomRequest};
use gomoku::registry::RoomRegistry;

#[test]
fn lookup_creates_each_room_once() {
    let mut reg = RoomRegistry::new();
    let (r1, created1) = reg.lookup_or_create(&String::from("r1"));
    assert_eq!(r1, 0);
    assert!(created1);
    let (r2, created2) = reg.lookup_or_create(&String::from("lobby"));
    assert_eq!(r2, 1);
    assert!(created2);
    // The same name resolves to the same slot, without creating anew.
    let (again, created3) = reg.lookup_or_create(&String::from("r1"));
    assert_eq!(again, 0);
    assert!(!created3);
    assert_eq!(reg.names, vec![String::from("r1"), String::from("lobby")]);
}

fn claims(email: &str) -> Claims {
    Claims {
        sub: String::from("user:1"),
        user_id: String::from("user:1"),
        email: String::from(email),
        is_admin: false,
        exp: 4102444800,
    }
}

#[test]
fn a_verified_token_names_its_email() {
    let req = EnterRoomRequest {
        user: Some(String::from("shadowed")),
        token: Some(String::from("token-bytes")),
    };
    let r = resolve_identity(&req, Some(claims("alice@example.com")), 0);
    assert_eq!(r, Ok(String::from("alice@example.com")));
}

#[test]
fn a_bad_token_rejects_the_connection() {
    let req = EnterRoomRequest {
        user: Some(String::from("shadowed")),
        token: Some(String::from("token-bytes")),
    };
    let r = resolve_identity(&req, None, 0);
    assert_eq!(r, Err(AuthError::InvalidToken));
}

#[test]
fn a_plain_name_is_used_without_a_token() {
    let req = EnterRoomRequest { user: Some(String::from("walk-in")), token: None };
    let r = resolve_identity(&req, None, 99);
    assert_eq!(r, Ok(String::from("walk-in")));
}

#[test]
fn anonymous_connections_get_a_guest_name() {
    let req = EnterRoomRequest { user: None, token: None };
    assert_eq!(resolve_identity(&req, None, 123), Ok(String::from("Guest_123")));
    // The suffix keeps only its last four digits.
    assert_eq!(resolve_identity(&req, None, 1234567), Ok(String::from("Guest_4567")));
    assert_eq!(resolve_identity(&req, None, 0), Ok(String::from("Guest_0")));
}
