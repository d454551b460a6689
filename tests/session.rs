use nuttyverse_core::nutty_id::NuttyId;
use nuttyverse_core::session::Session;
use nuttyverse_core::session::session_cookie;
use nuttyverse_core::session::session_id_from_cookies;
use nuttyverse_core::session::SessionBuilderError;
use nuttyverse_core::session::SessionError;

const DAY: i64 = 24 * 60 * 60 * 1000;

#[test]
fn session_test_session_creation() {
    let navigator_id = NuttyId::now();
    let user_agent = "test-agent".to_string();
    let session = Session::new(navigator_id, user_agent.clone(), 30 * DAY).unwrap();
    assert_eq!(session.navigator_id(), &navigator_id);
    assert_eq!(session.user_agent(), &user_agent);
    assert!(!session.is_expired());
}

#[test]
fn session_test_session_expiration() {
    let navigator_id = NuttyId::now();
    let mut session = Session::new(navigator_id, "test-agent".to_string(), 0).unwrap();
    let start = std::time::Instant::now();
    while start.elapsed() < std::time::Duration::from_millis(100) {}
    assert!(session.is_expired());
    session.extend(30 * DAY);
    assert!(!session.is_expired());
}

fn parts() -> (NuttyId, NuttyId, String, i64) {
    let nutty_id = NuttyId::now();
    (nutty_id, NuttyId::now(), "test-agent".to_string(), nutty_id.timestamp() as i64)
}

#[test]
fn session_test_session_builder() {
    let (nutty_id, navigator_id, user_agent, now) = parts();
    let session = Session::builder()
        .nutty_id(nutty_id)
        .navigator_id(navigator_id)
        .user_agent(user_agent)
        .expires_at(now + 30 * DAY)
        .created_at(now)
        .updated_at(now)
        .try_build()
        .unwrap();
    assert!(!session.is_expired());
}

#[test]
fn session_test_session_builder_missing_fields() {
    let (nutty_id, navigator_id, user_agent, now) = parts();
    let expires_at = now + 30 * DAY;

    let result = Session::builder()
        .navigator_id(navigator_id)
        .user_agent(user_agent.clone())
        .expires_at(expires_at)
        .created_at(now)
        .updated_at(now)
        .try_build();
    assert!(matches!(result, Err(SessionBuilderError::MissingNuttyId)));

    let result = Session::builder()
        .nutty_id(nutty_id)
        .user_agent(user_agent.clone())
        .expires_at(expires_at)
        .created_at(now)
        .updated_at(now)
        .try_build();
    assert!(matches!(result, Err(SessionBuilderError::MissingNavigatorId)));

    let result = Session::builder()
        .nutty_id(nutty_id)
        .navigator_id(navigator_id)
        .expires_at(expires_at)
        .created_at(now)
        .updated_at(now)
        .try_build();
    assert!(matches!(result, Err(SessionBuilderError::MissingUserAgent)));

    let result = Session::builder()
        .nutty_id(nutty_id)
        .navigator_id(navigator_id)
        .user_agent(user_agent.clone())
        .created_at(now)
        .updated_at(now)
        .try_build();
    assert!(matches!(result, Err(SessionBuilderError::MissingExpiresAt)));

    let result = Session::builder()
        .nutty_id(nutty_id)
        .navigator_id(navigator_id)
        .user_agent(user_agent.clone())
        .expires_at(expires_at)
        .updated_at(now)
        .try_build();
    assert!(matches!(result, Err(SessionBuilderError::MissingCreatedAt)));

    let result = Session::builder()
        .nutty_id(nutty_id)
        .navigator_id(navigator_id)
        .user_agent(user_agent)
        .expires_at(expires_at)
        .created_at(now)
        .try_build();
    assert!(matches!(result, Err(SessionBuilderError::MissingUpdatedAt)));
}

#[test]
fn session_test_session_builder_invalid_timestamps() {
    let (nutty_id, navigator_id, user_agent, now) = parts();
    let result = Session::builder()
        .nutty_id(nutty_id)
        .navigator_id(navigator_id)
        .user_agent(user_agent)
        .expires_at(now + 30 * DAY)
        .created_at(now)
        .updated_at(now - DAY)
        .try_build();
    assert!(matches!(result, Err(SessionBuilderError::InvalidUpdatedAt)));
}

#[test]
fn expiry_and_extension_at_given_times() {
    let mut s = Session::new(NuttyId::new(1), "ua".to_string(), 1000).unwrap();
    let created = s.created_at();
    assert_eq!(s.expires_at(), created + 1000);
    assert!(!s.is_expired_at(created + 1000));
    assert!(s.is_expired_at(created + 1001));
    s.extend_at(5_000, 7);
    assert_eq!(s.expires_at(), 5_007);
    assert_eq!(s.updated_at(), 5_000);
    assert_eq!(s.created_at(), created);
    s.extend_at(i64::MAX - 1, 10);
    assert_eq!(s.expires_at(), i64::MAX);
}

#[test]
fn session_cookie_is_found_among_pieces() {
    let id = NuttyId::now();
    let headers = vec![
        "theme=dark; lang=en".to_string(),
        format!("a=1;  session_id={} ; b=2", id.to_text()),
        "session_id=ignored".to_string(),
    ];
    assert_eq!(session_cookie(&headers), Some(id.to_text()));
    assert_eq!(session_id_from_cookies(&headers), Ok(id));
    assert_eq!(session_cookie(&vec!["x=1".to_string()]), None);
    assert_eq!(session_id_from_cookies(&vec![]), Err(SessionError::MissingCookie));
    assert_eq!(
        session_id_from_cookies(&vec!["session_id=garbage".to_string()]),
        Err(SessionError::InvalidCookie)
    );
}

#[test]
fn requests_are_checked_for_expiry_then_client() {
    let s = Session::new(NuttyId::new(5), "agent".to_string(), 1000).unwrap();
    let t = s.created_at();
    assert_eq!(s.check_request("agent", t), Ok(()));
    assert_eq!(s.check_request("other", t), Err(SessionError::UserAgentMismatch));
    assert_eq!(s.check_request("other", t + 2000), Err(SessionError::SessionExpired));
}
