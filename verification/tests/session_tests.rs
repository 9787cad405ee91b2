use rc_voting::session::{Session, SessionSvc};

fn session(uuid: &str, expires: i64) -> Session {
    Session {
        uuid: uuid.to_string(),
        user_uuid: "user".to_string(),
        created: 0,
        expires,
        data: None,
    }
}

#[test]
fn a_session_expires_after_its_expiry_time() {
    assert!(session("a", 100).is_expired(101));
    assert!(!session("a", 100).is_expired(100));
    assert!(!session("a", 100).is_expired(99));
}

#[test]
fn expired_sessions_lists_those_past_their_expiry_in_order() {
    let sessions = vec![session("a", 10), session("b", 50), session("c", 5), session("d", 20)];
    assert_eq!(SessionSvc::expired_sessions(&sessions, 20), vec!["a".to_string(), "c".to_string()]);
}

#[test]
fn expired_sessions_of_none_is_empty() {
    assert!(SessionSvc::expired_sessions(&Vec::new(), 20).is_empty());
}

use rc_voting::session::{SessionCookie, SessionRejection};

#[test]
fn session_cookie_settings() {
    let cookie = SessionCookie::for_session("s-42", true);
    assert_eq!(cookie.name, "X-Login-Session-ID");
    assert_eq!(cookie.value, "s-42");
    assert_eq!(cookie.path, "/");
    assert!(cookie.secure);
    assert_eq!(cookie.max_age_days, 14);
    assert!(!SessionCookie::for_session("s-42", false).secure);
}

#[test]
fn session_rejection_messages() {
    assert_eq!(SessionRejection::NoSessionId.message(), "No session id found in request");
    assert_eq!(SessionRejection::NoSessionFound.message(), "No session found for provided session id");
}
