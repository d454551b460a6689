use nuttyverse_core::navigator::NavigatorError;
use nuttyverse_core::navigator::NavigatorService;
use nuttyverse_core::navigator::NavigatorServiceError;
use nuttyverse_core::nutty_id::NuttyId;

#[test]
fn service_test_register_success() {
    let mut service = NavigatorService::new();
    let result = service.register("test_user".to_string(), "password123".to_string());
    assert!(result.is_ok());
    let navigator = result.unwrap();
    assert_eq!(navigator.name(), "test_user");
    assert!(navigator.verify_password("password123"));
}

#[test]
fn service_test_register_invalid_name() {
    let mut service = NavigatorService::new();
    let result = service.register("a".to_string(), "password123".to_string());
    match result.unwrap_err() {
        NavigatorServiceError::Create(NavigatorError::InvalidName(_)) => (),
        _ => panic!("Expected InvalidName error"),
    }
}

#[test]
fn service_test_register_duplicate_name() {
    let mut service = NavigatorService::new();
    assert!(service.register("duplicate_user".to_string(), "password123".to_string()).is_ok());
    let second = service.register("duplicate_user".to_string(), "password456".to_string());
    assert_eq!(second.unwrap_err(), NavigatorServiceError::DuplicateName);
}

#[test]
fn test_login_success() {
    let mut service = NavigatorService::new();
    let navigator = service.register("login_test".to_string(), "password123".to_string()).unwrap();
    let (logged_in, session) = service
        .login("login_test", "password123", "test-agent".to_string())
        .unwrap();
    assert_eq!(logged_in.nutty_id(), navigator.nutty_id());
    assert_eq!(session.user_agent(), "test-agent");
    assert!(!session.is_expired());
    assert_eq!(service.get_session_by_id(session.nutty_id()).unwrap().navigator_id(), navigator.nutty_id());
}

#[test]
fn test_login_invalid_credentials() {
    let mut service = NavigatorService::new();
    service.register("invalid_test".to_string(), "password123".to_string()).unwrap();
    let result = service.login("invalid_test", "wrong_password", "test-agent".to_string());
    assert_eq!(result.unwrap_err(), NavigatorServiceError::InvalidCredentials);
}

#[test]
fn test_login_nonexistent_user() {
    let mut service = NavigatorService::new();
    let result = service.login("nonexistent", "password123", "test-agent".to_string());
    assert_eq!(result.unwrap_err(), NavigatorServiceError::InvalidCredentials);
}

#[test]
fn test_get_navigator_by_id() {
    let mut service = NavigatorService::new();
    let navigator = service.register("get_by_id".to_string(), "password123".to_string()).unwrap();
    let found = service.get_navigator_by_id(navigator.nutty_id()).unwrap();
    assert_eq!(found.name(), "get_by_id");
    assert!(service.get_navigator_by_id(&NuttyId::new(7)).is_none());
    assert!(service.get_session_by_id(&NuttyId::new(7)).is_none());
}
