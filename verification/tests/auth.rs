use rust_proxy::common::auth::{AuthError, AuthManager, AuthStep};

fn users() -> Vec<(String, String)> {
    vec![
        ("admin".to_string(), "password".to_string()),
        ("user1".to_string(), "pass123".to_string()),
    ]
}

#[test]
fn test_authenticate() {
    let auth_manager = AuthManager::new(&users()).unwrap();

    assert!(auth_manager.authenticate("admin", "password").unwrap());
    assert!(auth_manager.authenticate("user1", "pass123").unwrap());
    assert!(!auth_manager.authenticate("admin", "wrongpass").unwrap());
    assert!(!auth_manager.authenticate("nonexistent", "password").unwrap());
}

#[test]
fn everybody_is_let_in_without_accounts() {
    let manager = AuthManager::default();
    assert!(!manager.has_users());
    assert!(manager.authenticate("anybody", "anything").unwrap());
    assert!(!AuthManager::new(&Vec::new()).unwrap().has_users());
}

#[test]
fn passwords_are_not_kept_as_they_are() {
    let manager = AuthManager::new(&vec![("a".to_string(), "secret".to_string())]).unwrap();
    assert!(manager.has_users());
    match manager.begin("a", "secret") {
        AuthStep::Check(check) => assert!(check.run().unwrap()),
        AuthStep::Decided(_) => panic!("the password has to be checked"),
    }
    assert!(matches!(manager.begin("b", "secret"), AuthStep::Decided(false)));
}

#[test]
fn last_entry_of_a_name_counts() {
    let list = vec![
        ("a".to_string(), "first".to_string()),
        ("a".to_string(), "second".to_string()),
    ];
    let manager = AuthManager::new(&list).unwrap();
    assert!(!manager.authenticate("a", "first").unwrap());
    assert!(manager.authenticate("a", "second").unwrap());
}

#[test]
fn hash_that_cannot_be_read() {
    let mut manager = AuthManager::default();
    manager.store("a", Ok("no hash".to_string())).unwrap();
    match manager.authenticate("a", "x") {
        Err(AuthError::HashingError(bcrypt::BcryptError::InvalidHash(hash))) => {
            assert_eq!(hash, "no hash")
        }
        other => panic!("{other:?}"),
    }
    let failure = bcrypt::hash("x", 99);
    assert!(matches!(manager.store("b", failure), Err(AuthError::HashingError(_))));
    assert!(!manager.authenticate("b", "x").unwrap());
}

#[test]
fn lost_check_is_a_failure() {
    assert!(matches!(AuthManager::conclude(None), Err(AuthError::AuthenticationFailed)));
    assert!(matches!(AuthManager::conclude(Some(Ok(true))), Ok(true)));
    assert!(matches!(AuthManager::conclude(Some(Ok(false))), Ok(false)));
}
