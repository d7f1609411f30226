use eddie::accounts::{account_from_request, app_password, password_login, password_to_store, resolve_password, split_aliases, SaveEmailAccountRequest};
use eddie::config::{AuthConfig, PasswordSource};
use eddie::crypto::{DeviceEncryption, EncryptionError};
use eddie::mime::EddieError;

fn request(password: Option<&str>) -> SaveEmailAccountRequest {
    SaveEmailAccountRequest {
        name: "Work".to_string(),
        email: "me@example.com".to_string(),
        display_name: Some("Me".to_string()),
        aliases: Some("a@example.com, b@example.com".to_string()),
        imap_host: "imap.example.com".to_string(),
        imap_port: 993,
        imap_tls: true,
        imap_tls_cert: None,
        smtp_host: "smtp.example.com".to_string(),
        smtp_port: 587,
        smtp_tls: false,
        smtp_tls_cert: Some("/etc/cert.pem".to_string()),
        username: "me".to_string(),
        password: password.map(|p| p.to_string()),
    }
}

fn device() -> DeviceEncryption {
    DeviceEncryption::for_device("machine", "user").ok().unwrap()
}

#[test]
fn saved_account_logs_in_with_the_app_password() {
    let a = account_from_request(&request(None));
    assert!(a.default);
    assert_eq!(a.name.as_deref(), Some("Work"));
    let imap = a.imap.unwrap();
    assert_eq!(imap.host, "imap.example.com");
    assert_eq!(imap.port, 993);
    assert!(matches!(imap.auth, AuthConfig::AppPassword { ref user } if user == "me"));
    let smtp = a.smtp.unwrap();
    assert_eq!(smtp.port, 587);
    assert!(!smtp.tls);
    assert_eq!(smtp.tls_cert.as_deref(), Some("/etc/cert.pem"));
}

#[test]
fn new_password_is_stored_encrypted() {
    let enc: Result<DeviceEncryption, EncryptionError> = Ok(device());
    let stored = password_to_store(&Some("s3cret".to_string()), None, &enc).ok().unwrap().unwrap();
    assert_ne!(stored, "s3cret");
    assert_eq!(device().decrypt(&stored).ok().unwrap(), "s3cret");
}

#[test]
fn without_password_the_stored_one_is_kept() {
    let enc: Result<DeviceEncryption, EncryptionError> = Ok(device());
    assert_eq!(password_to_store(&None, Some(Some("abc".to_string())), &enc).ok().unwrap(), Some("abc".to_string()));
    assert_eq!(password_to_store(&Some(String::new()), Some(None), &enc).ok().unwrap(), None);
    match password_to_store(&None, None, &enc) {
        Err(EddieError::InvalidInput(m)) => assert_eq!(m, "Password is required when creating a new account"),
        _ => panic!("expected invalid input"),
    }
}

#[test]
fn encryption_that_cannot_start_is_a_config_error() {
    let enc: Result<DeviceEncryption, EncryptionError> = Err(EncryptionError::DeviceId("no id".to_string()));
    match password_to_store(&Some("x".to_string()), None, &enc) {
        Err(EddieError::Config(m)) => assert_eq!(m, "Failed to initialize encryption: Failed to get device identifier: no id"),
        _ => panic!("expected a config error"),
    }
}

#[test]
fn aliases_split_on_commas_and_spaces() {
    assert_eq!(split_aliases("a@x.com, b@x.com,,c@x.com  d@x.com"), vec!["a@x.com", "b@x.com", "c@x.com", "d@x.com"]);
    assert_eq!(split_aliases("  "), Vec::<String>::new());
}

#[test]
fn passwords_from_sources() {
    assert_eq!(resolve_password(&PasswordSource::Raw("pw".to_string()), None).ok().unwrap(), "pw");
    let cmd = PasswordSource::Command { command: "pass show mail".to_string() };
    assert_eq!(resolve_password(&cmd, Some(Ok((true, b"  secret\n".to_vec())))).ok().unwrap(), "secret");
    match resolve_password(&cmd, Some(Ok((false, vec![])))) {
        Err(EddieError::Config(m)) => assert_eq!(m, "Password command failed"),
        _ => panic!("expected a config error"),
    }
    match resolve_password(&cmd, Some(Err("not found".to_string()))) {
        Err(EddieError::Config(m)) => assert_eq!(m, "Failed to run password command: not found"),
        _ => panic!("expected a config error"),
    }
}

#[test]
fn empty_imap_password_is_refused() {
    match password_login("me", String::new()) {
        Err(EddieError::Auth(m)) => assert_eq!(m, "Empty password returned for user: me"),
        _ => panic!("expected an auth error"),
    }
    assert_eq!(password_login("me", "pw".to_string()).ok().unwrap(), ("me".to_string(), "pw".to_string()));
}

#[test]
fn app_passwords_come_decrypted() {
    let enc: Result<DeviceEncryption, EncryptionError> = Ok(device());
    let c = device().encrypt("app-pw").ok().unwrap();
    assert_eq!(app_password("me@x.com", Some(Some(c)), &enc, true).ok().unwrap(), "app-pw");
    match app_password("me@x.com", None, &enc, true) {
        Err(EddieError::Auth(m)) => assert_eq!(m, "No account configuration found for me@x.com"),
        _ => panic!("expected an auth error"),
    }
    match app_password("me@x.com", Some(None), &enc, false) {
        Err(EddieError::Auth(m)) => assert_eq!(m, "No password stored for me@x.com. Please re-enter your password."),
        _ => panic!("expected an auth error"),
    }
    match app_password("me@x.com", Some(Some("garbage".to_string())), &enc, true) {
        Err(EddieError::Auth(m)) => assert_eq!(m, "Failed to decrypt password for me@x.com. You may need to re-enter your password."),
        _ => panic!("expected an auth error"),
    }
    match app_password("me@x.com", Some(Some("garbage".to_string())), &enc, false) {
        Err(EddieError::Auth(m)) => assert!(m.starts_with("Failed to decrypt password for me@x.com: ")),
        _ => panic!("expected an auth error"),
    }
}

use eddie::accounts::{alias_changes, update_statement, AccountUpdate};

fn no_update() -> AccountUpdate {
    AccountUpdate {
        display_name: None,
        password: None,
        imap_host: None,
        imap_port: None,
        imap_tls: None,
        smtp_host: None,
        smtp_port: None,
        smtp_tls: None,
    }
}

#[test]
fn updates_set_only_the_given_settings() {
    assert_eq!(update_statement(&no_update()), None);
    let mut u = no_update();
    u.display_name = Some("Me".to_string());
    u.imap_port = Some(993);
    u.smtp_tls = Some(false);
    assert_eq!(
        update_statement(&u),
        Some("UPDATE accounts SET display_name = ?, imap_port = ?, smtp_tls = ? WHERE id = ?".to_string())
    );
}

#[test]
fn aliases_are_replaced_but_the_account_address_stays() {
    let existing = vec!["me@x.com".to_string(), "old@x.com".to_string()];
    let (removed, added) = alias_changes(&existing, "me@x.com", "new@x.com, me@x.com");
    assert_eq!(removed, vec!["old@x.com".to_string()]);
    assert_eq!(added, vec!["new@x.com".to_string()]);
}
