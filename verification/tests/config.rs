use std::collections::HashMap;

use eddie::config::{
    default_imap_port, default_smtp_port, default_true, AccountConfig, AppConfig, ConfigState, CredentialError,
    CredentialStore,
};
use eddie::mime::EddieError;

fn one_account() -> AppConfig {
    let mut accounts = HashMap::new();
    accounts.insert(
        "work".to_string(),
        AccountConfig {
            name: Some("work".to_string()),
            default: true,
            email: "me@example.com".to_string(),
            display_name: None,
            imap: None,
            smtp: None,
        },
    );
    AppConfig { accounts }
}

#[test]
fn state_starts_empty_and_keeps_what_is_set() {
    let mut s = ConfigState::new();
    assert!(!s.is_initialized());
    assert!(s.config().is_none());
    assert!(s.set_config(one_account()).is_ok());
    assert!(s.is_initialized());
    let c = s.config().unwrap();
    assert_eq!(c.accounts.len(), 1);
    assert_eq!(c.accounts["work"].email, "me@example.com");
}

#[test]
fn init_from_found_file_missing_file_or_error() {
    let mut s = ConfigState::new();
    assert!(s.init_config(None).is_ok());
    assert!(s.config().unwrap().accounts.is_empty());

    let mut t = ConfigState::new();
    assert!(t.init_config(Some(Ok(one_account()))).is_ok());
    assert_eq!(t.config().unwrap().accounts.len(), 1);

    let mut u = ConfigState::new();
    let r = u.init_config(Some(Err(EddieError::Config("bad toml".to_string()))));
    assert!(matches!(r, Err(EddieError::Config(m)) if m == "bad toml"));
    assert!(!u.is_initialized());
}

#[test]
fn defaults_of_the_configuration() {
    assert_eq!(default_imap_port(), 993);
    assert_eq!(default_smtp_port(), 465);
    assert!(default_true());
    assert!(AppConfig::default().accounts.is_empty());
}

#[test]
fn credential_entry_names() {
    let store = CredentialStore::new();
    assert_eq!(store.service(), "eddie.chat");
    assert_eq!(CredentialStore::default().service(), "eddie.chat");
    assert_eq!(CredentialStore::with_service("test.svc").service(), "test.svc");
    assert_eq!(store.password_key("a@b.c"), "password:a@b.c");
    assert_eq!(store.app_password_key("a@b.c"), "app_password:a@b.c");
}

#[test]
fn keyring_failures() {
    assert!(matches!(CredentialError::from_keyring(true, "x".to_string()), CredentialError::NotFound(m) if m == "No entry found"));
    assert!(matches!(CredentialError::from_keyring(false, "locked".to_string()), CredentialError::Keyring(m) if m == "locked"));
}
