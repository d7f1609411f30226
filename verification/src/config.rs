//! Account configuration and credentials: the configuration model, the
//! configuration state of the application, and the names under which
//! passwords are kept in the platform's secret store.
use vstd::prelude::*;
use std::collections::HashMap;
use crate::text;
use crate::mime::EddieError;

verus! {

broadcast use vstd::string::group_string_axioms;

/// How a password is obtained.
pub enum PasswordSource {
    /// The password itself.
    Raw(String),
    /// A command whose output is the password.
    Command { command: String },
}

/// How an account authenticates.
pub enum AuthConfig {
    /// A user name and a password.
    Password { user: String, password: PasswordSource },
    /// A user name with an app-specific password (iCloud and others).
    AppPassword { user: String },
}

/// An IMAP server.
pub struct ImapConfig {
    pub host: String,
    pub port: u16,
    pub tls: bool,
    /// A certificate to trust (for self-signed servers).
    pub tls_cert: Option<String>,
    pub auth: AuthConfig,
}

/// An SMTP server.
pub struct SmtpConfig {
    pub host: String,
    pub port: u16,
    pub tls: bool,
    /// A certificate to trust (for self-signed servers).
    pub tls_cert: Option<String>,
    pub auth: AuthConfig,
}

/// One account.
pub struct AccountConfig {
    pub name: Option<String>,
    pub default: bool,
    pub email: String,
    pub display_name: Option<String>,
    pub imap: Option<ImapConfig>,
    pub smtp: Option<SmtpConfig>,
}

/// The configuration: accounts by name.
pub struct AppConfig {
    pub accounts: HashMap<String, AccountConfig>,
}

impl Default for AppConfig {
    fn default() -> (r: Self)
        ensures
            r.accounts@ == Map::<String, AccountConfig>::empty(),
    {
        AppConfig { accounts: HashMap::new() }
    }
}

/// The IMAP port when the configuration gives none (implicit TLS).
pub fn default_imap_port() -> (r: u16)
    ensures
        r == 993,
{
    993
}

/// The SMTP port when the configuration gives none (implicit TLS).
pub fn default_smtp_port() -> (r: u16)
    ensures
        r == 465,
{
    465
}

/// TLS is on when the configuration does not say.
pub fn default_true() -> (r: bool)
    ensures
        r,
{
    true
}

/// The configuration of the running application: none until one is set.
pub struct ConfigState {
    config: Option<AppConfig>,
}

impl ConfigState {
    /// Whether a configuration was set.
    pub closed spec fn initialized(self) -> bool {
        self.config is Some
    }

    /// The configuration that was set.
    pub closed spec fn current(self) -> Option<AppConfig> {
        self.config
    }

    /// No configuration yet.
    pub fn new() -> (r: Self)
        ensures
            !r.initialized(),
    {
        ConfigState { config: None }
    }

    /// Sets the configuration, replacing any earlier one.
    pub fn set_config(&mut self, config: AppConfig) -> (r: Result<(), EddieError>)
        ensures
            r is Ok,
            final(self).initialized(),
            final(self).current() == Some(config),
    {
        self.config = Some(config);
        Ok(())
    }

    /// The configuration that was set, if any.
    pub fn config(&self) -> (r: Option<&AppConfig>)
        ensures
            match r {
                Some(c) => self.current() == Some(*c),
                None => !self.initialized(),
            },
    {
        match &self.config {
            Some(c) => Some(c),
            None => None,
        }
    }

    /// Whether a configuration was set.
    pub fn is_initialized(&self) -> (r: bool)
        ensures
            r == self.initialized(),
    {
        self.config.is_some()
    }

    /// Sets the configuration read from the first configuration file that
    /// exists (its reading or parsing error is returned, and nothing is
    /// set), or the empty configuration when there is none.
    pub fn init_config(&mut self, found: Option<Result<AppConfig, EddieError>>) -> (r: Result<(), EddieError>)
        ensures
            match found {
                Some(Ok(c)) => r is Ok && final(self).current() == Some(c),
                Some(Err(e)) => r == Err::<(), EddieError>(e) && *final(self) == *old(self),
                None => r is Ok && final(self).initialized()
                    && final(self).current()->0.accounts@ == Map::<String, AccountConfig>::empty(),
            },
    {
        match found {
            Some(Ok(c)) => self.set_config(c),
            Some(Err(e)) => Err(e),
            None => self.set_config(AppConfig::default()),
        }
    }
}

// ── Credentials ─────────────────────────────────────────────────────────────

/// Errors of the secret store.
pub enum CredentialError {
    Keyring(String),
    Serialization(String),
    NotFound(String),
}

impl CredentialError {
    /// The error for a failure of the secret store: a missing entry is not
    /// found, anything else is an error of the store with its message.
    pub fn from_keyring(no_entry: bool, message: String) -> (r: Self)
        ensures
            no_entry ==> (r matches CredentialError::NotFound(m) && m@ == "No entry found"@),
            !no_entry ==> (r matches CredentialError::Keyring(m) && m@ == message@),
    {
        if no_entry {
            CredentialError::NotFound("No entry found".to_string())
        } else {
            CredentialError::Keyring(message)
        }
    }
}

/// Where the passwords of accounts are kept: a service of the platform's
/// secret store.
pub struct CredentialStore {
    service: String,
}

impl CredentialStore {
    /// The service name.
    pub closed spec fn service_name(self) -> Seq<char> {
        self.service@
    }

    /// The store of the application's service, `eddie.chat`.
    pub fn new() -> (r: Self)
        ensures
            r.service_name() == "eddie.chat"@,
    {
        CredentialStore { service: "eddie.chat".to_string() }
    }

    /// A store with another service name.
    pub fn with_service(service: &str) -> (r: Self)
        ensures
            r.service_name() == service@,
    {
        CredentialStore { service: service.to_string() }
    }

    /// The service name.
    pub fn service(&self) -> (r: String)
        ensures
            r@ == self.service_name(),
    {
        self.service.clone()
    }

    /// The entry name of an account's password: `password:<email>`.
    pub fn password_key(&self, email: &str) -> (r: String)
        ensures
            r@ == "password:"@ + email@,
    {
        text::chars_to_string(text::lit_then("password:", text::str_chars(email).as_slice()).as_slice())
    }

    /// The entry name of an account's app-specific password:
    /// `app_password:<email>`.
    pub fn app_password_key(&self, email: &str) -> (r: String)
        ensures
            r@ == "app_password:"@ + email@,
    {
        text::chars_to_string(text::lit_then("app_password:", text::str_chars(email).as_slice()).as_slice())
    }
}

impl Default for CredentialStore {
    fn default() -> (r: Self)
        ensures
            r.service_name() == "eddie.chat"@,
    {
        CredentialStore::new()
    }
}

} // verus!
