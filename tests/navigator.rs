use nuttyverse_core::navigator::Navigator;
use nuttyverse_core::navigator::NavigatorBuilderError;
use nuttyverse_core::navigator::NavigatorError;
use nuttyverse_core::nutty_id::NuttyId;

#[test]
fn test_validate_name() {
    assert!(Navigator::validate_name("user1").is_ok());
    assert!(Navigator::validate_name("test_user").is_ok());
    assert!(Navigator::validate_name("1234").is_ok());
    assert!(Navigator::validate_name("1234567890123456").is_ok());
    assert!(Navigator::validate_name("a_1_b_2").is_ok());

    let err = Navigator::validate_name("abc").unwrap_err();
    match err {
        NavigatorError::InvalidName(msg) => {
            assert!(msg.contains("4–16 characters"));
            assert!(msg.contains("(got 3)"));
        }
        _ => panic!("Expected InvalidName error for short name"),
    }

    let err = Navigator::validate_name("").unwrap_err();
    match err {
        NavigatorError::InvalidName(msg) => {
            assert!(msg.contains("4–16 characters"));
            assert!(msg.contains("(got 0)"));
        }
        _ => panic!("Expected InvalidName error for empty string"),
    }

    let err = Navigator::validate_name("12345678901234567").unwrap_err();
    match err {
        NavigatorError::InvalidName(msg) => {
            assert!(msg.contains("4–16 characters"));
            assert!(msg.contains("(got 17)"));
        }
        _ => panic!("Expected InvalidName error for long name"),
    }

    let err = Navigator::validate_name("User1").unwrap_err();
    match err {
        NavigatorError::InvalidName(msg) => assert!(msg.contains("lowercased alphanumeric")),
        _ => panic!("Expected InvalidName error for uppercase letters"),
    }

    let err = Navigator::validate_name("user-name").unwrap_err();
    match err {
        NavigatorError::InvalidName(msg) => assert!(msg.contains("lowercased alphanumeric")),
        _ => panic!("Expected InvalidName error for special characters"),
    }

    let err = Navigator::validate_name("user name").unwrap_err();
    match err {
        NavigatorError::InvalidName(msg) => assert!(msg.contains("lowercased alphanumeric")),
        _ => panic!("Expected InvalidName error for space"),
    }

    let err = Navigator::validate_name("user名").unwrap_err();
    match err {
        NavigatorError::InvalidName(msg) => assert!(msg.contains("lowercased alphanumeric")),
        _ => panic!("Expected InvalidName error for unicode characters"),
    }
}

#[test]
fn navigator_test_password_verification() {
    let password = "correct horse battery staple";
    let navigator = Navigator::new("test_user".to_string(), password).unwrap();
    assert!(navigator.verify_password(password));
    assert!(!navigator.verify_password("wrong_password"));
    assert!(!navigator.verify_password(""));
    assert!(!navigator.verify_password("CORRECT HORSE BATTERY STAPLE"));
    assert!(!navigator.verify_password(&password[0..password.len() - 1]));
}

#[test]
fn navigator_test_password_update() {
    let initial_password = "initial_password";
    let mut navigator = Navigator::new("test_user".to_string(), initial_password).unwrap();
    assert!(navigator.verify_password(initial_password));
    let new_password = "new_password";
    navigator.update_password(new_password).unwrap();
    assert!(navigator.verify_password(new_password));
    assert!(!navigator.verify_password(initial_password));
}

#[test]
fn navigator_test_password_edge_cases() {
    let empty_password = "";
    let navigator = Navigator::new("empty_pass_user".to_string(), empty_password).unwrap();
    assert!(navigator.verify_password(empty_password));
    assert!(!navigator.verify_password("not_empty"));

    let long_password = "a".repeat(100);
    let navigator = Navigator::new("long_pass_user".to_string(), &long_password).unwrap();
    assert!(navigator.verify_password(&long_password));
    assert!(!navigator.verify_password(&"a".repeat(99)));

    let special_password = "!@#$%^&*()_+{}|:<>?~";
    let navigator = Navigator::new("special_user".to_string(), special_password).unwrap();
    assert!(navigator.verify_password(special_password));
    assert!(!navigator.verify_password("wrong"));
}

#[test]
fn navigator_test_sequential_password_updates() {
    let password_1 = "password_1";
    let mut navigator = Navigator::new("update_user".to_string(), password_1).unwrap();
    let password_2 = "password_2";
    navigator.update_password(password_2).unwrap();
    assert!(navigator.verify_password(password_2));
    assert!(!navigator.verify_password(password_1));
    let password_3 = "password_3";
    navigator.update_password(password_3).unwrap();
    assert!(navigator.verify_password(password_3));
    assert!(!navigator.verify_password(password_2));
    assert!(!navigator.verify_password(password_1));
}

#[test]
fn navigator_test_invalid_password_hash() {
    let password = "valid_password";
    let stored = Navigator::new("invalid_user".to_string(), password).unwrap();
    // The same navigator, its stored hash corrupted.
    let navigator = Navigator::builder()
        .name(stored.name().to_string())
        .password_hash("not_a_valid_argon2_hash".to_string())
        .nutty_id(*stored.nutty_id())
        .created_at(stored.created_at())
        .updated_at(stored.updated_at())
        .try_build()
        .unwrap();
    assert!(!navigator.verify_password(password));
    assert!(!navigator.verify_password("any_other_password"));
}

#[test]
fn test_navigator_builder() {
    let navigator = Navigator::builder()
        .name("test_user".to_string())
        .password("correct horse battery staple".to_string())
        .try_build()
        .unwrap();
    assert_eq!(navigator.name(), "test_user");
    assert!(navigator.verify_password("correct horse battery staple"));
}

#[test]
fn test_navigator_builder_with_custom_fields() {
    let nutty_id = NuttyId::now();
    let now = nutty_id.timestamp() as i64;
    let later = now + 10_000;
    let navigator = Navigator::builder()
        .name("custom_user".to_string())
        .password("custom_password".to_string())
        .nutty_id(nutty_id)
        .created_at(now)
        .updated_at(later)
        .try_build()
        .unwrap();
    assert_eq!(navigator.nutty_id(), &nutty_id);
    assert_eq!(navigator.created_at(), now);
    assert_eq!(navigator.updated_at(), later);
    assert!(navigator.verify_password("custom_password"));
}

#[test]
fn navigator_builder_errors() {
    assert_eq!(Navigator::builder().try_build().unwrap_err(), NavigatorBuilderError::MissingName);
    assert_eq!(
        Navigator::builder().name("abcd".into()).try_build().unwrap_err(),
        NavigatorBuilderError::MissingPassword
    );
    assert_eq!(
        Navigator::builder().name("abcd".into()).password_hash("h".into()).try_build().unwrap_err(),
        NavigatorBuilderError::MissingTimestampContext
    );
    assert_eq!(
        Navigator::builder().name("abcd".into()).password("p".into()).created_at(1).try_build().unwrap_err(),
        NavigatorBuilderError::MissingTimestampContext
    );
    assert_eq!(
        Navigator::builder()
            .name("abcd".into())
            .password_hash("h".into())
            .nutty_id(NuttyId::new(1))
            .created_at(5)
            .updated_at(4)
            .try_build()
            .unwrap_err(),
        NavigatorBuilderError::InvalidUpdatedAt
    );
    match Navigator::builder().name("AB".into()).password("p".into()).try_build() {
        Err(NavigatorBuilderError::CreateNavigator(NavigatorError::InvalidName(_))) => {}
        other => panic!("unexpected {other:?}"),
    }
}

#[test]
fn rename_checks_the_name() {
    let mut navigator = Navigator::new("first".to_string(), "pw").unwrap();
    assert!(navigator.update_name("Bad Name").is_err());
    assert_eq!(navigator.name(), "first");
    navigator.update_name("second").unwrap();
    assert_eq!(navigator.name(), "second");
}
