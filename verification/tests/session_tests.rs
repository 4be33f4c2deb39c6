use symgraph::session::{
    authenticate_and_create_session, open_session, AdminUser, Authenticator, SessionManager,
    StatusCode, User,
};

#[test]
fn user_new_keeps_its_arguments() {
    let user = User::new("ada".to_string(), 7);
    assert_eq!(user.username, "ada");
    assert_eq!(user.id, 7);
}

#[test]
fn admin_starts_without_permissions() {
    let admin = AdminUser::new("root".to_string(), 1);
    assert_eq!(admin.username(), "root");
    assert!(admin.granted().is_empty());
}

#[test]
fn permissions_are_kept_in_order() {
    let mut admin = AdminUser::new("root".to_string(), 1);
    admin.add_permission("read".to_string());
    admin.add_permission("write".to_string());
    assert_eq!(admin.granted(), &vec!["read".to_string(), "write".to_string()]);
}

#[test]
fn password_needs_eight_bytes() {
    let admin = AdminUser::new("root".to_string(), 1);
    assert!(!admin.validate_password("1234567"));
    assert!(admin.validate_password("12345678"));
    assert!(admin.validate_password("ééééé"));
}

#[test]
fn authenticate_checks_name_and_password() {
    let admin = AdminUser::new("root".to_string(), 1);
    assert!(admin.authenticate("root", "long enough"));
    assert!(!admin.authenticate("root", "short"));
    assert!(!admin.authenticate("toor", "long enough"));
    assert!(!admin.authenticate("", "long enough"));
    assert!(!admin.authenticate("root", ""));
    admin.logout();
}

#[test]
fn sessions_are_found_by_id() {
    let mut manager: SessionManager<User> = SessionManager::new();
    assert!(manager.get_session("a").is_none());
    manager.create_session("a".to_string(), User::new("ada".to_string(), 1));
    manager.create_session("b".to_string(), User::new("bob".to_string(), 2));
    assert_eq!(manager.get_session("a").unwrap().username, "ada");
    assert_eq!(manager.get_session("b").unwrap().id, 2);
    assert!(manager.get_session("c").is_none());
    manager.create_session("a".to_string(), User::new("eve".to_string(), 3));
    assert_eq!(manager.get_session("a").unwrap().username, "eve");
}

#[test]
fn status_messages() {
    assert_eq!(StatusCode::Success.message(), "OK");
    assert_eq!(StatusCode::Unauthorized.message(), "Unauthorized");
    assert_eq!(StatusCode::Forbidden.message(), "Forbidden");
    assert_eq!(StatusCode::NotFound.message(), "Not Found");
}

#[test]
fn status_numbers() {
    assert_eq!(StatusCode::Success.code(), 200);
    assert_eq!(StatusCode::Unauthorized.code(), 401);
    assert_eq!(StatusCode::Forbidden.code(), 403);
    assert_eq!(StatusCode::NotFound.code(), 404);
}

#[test]
fn open_session_uses_the_token() {
    let admin = AdminUser::new("root".to_string(), 1);
    let mut manager: SessionManager<AdminUser> = SessionManager::new();
    let id = open_session(&admin, "root", "long enough", "t0", &mut manager).unwrap();
    assert_eq!(id, "session_t0");
    assert_eq!(manager.get_session("session_t0").unwrap().username(), "root");
}

#[test]
fn open_session_rejects_bad_credentials() {
    let admin = AdminUser::new("root".to_string(), 1);
    let mut manager: SessionManager<AdminUser> = SessionManager::new();
    let r = open_session(&admin, "root", "short", "t0", &mut manager);
    assert_eq!(r, Err(StatusCode::Unauthorized));
    assert!(manager.get_session("session_t0").is_none());
}

#[test]
fn session_ids_are_random_tokens_behind_a_prefix() {
    let admin = AdminUser::new("root".to_string(), 1);
    let mut manager: SessionManager<AdminUser> = SessionManager::new();
    let id = authenticate_and_create_session(&admin, "root", "long enough", &mut manager).unwrap();
    assert_eq!(id.len(), 44);
    assert!(id.starts_with("session_"));
    let token: Vec<char> = id["session_".len()..].chars().collect();
    for (i, c) in token.iter().enumerate() {
        if i == 8 || i == 13 || i == 18 || i == 23 {
            assert_eq!(*c, '-');
        } else {
            assert!(c.is_ascii_digit() || ('a'..='f').contains(c));
        }
    }
    assert_eq!(token[14], '4');
    assert!(matches!(token[19], '8' | '9' | 'a' | 'b'));
    assert_eq!(manager.get_session(&id).unwrap().username(), "root");
    let second =
        authenticate_and_create_session(&admin, "root", "long enough", &mut manager).unwrap();
    assert_ne!(id, second);
}

#[test]
fn bad_credentials_open_no_session() {
    let admin = AdminUser::new("root".to_string(), 1);
    let mut manager: SessionManager<AdminUser> = SessionManager::new();
    let r = authenticate_and_create_session(&admin, "root", "short", &mut manager);
    assert_eq!(r, Err(StatusCode::Unauthorized));
}
