//! Mail server discovery: known providers, MX and SRV analysis, Mozilla
//! autoconfig documents, server probing plans and the order of the
//! discovery pipeline.
use vstd::prelude::*;
use crate::text;

verus! {

broadcast use vstd::string::group_string_axioms;

// ── Configuration types ─────────────────────────────────────────────────────

/// Errors of discovery.
pub enum AutodiscoveryError {
    InvalidEmail(String),
    HttpError(String),
    XmlError(String),
    DnsError(String),
    NotFound(String),
    ConnectionFailed(String),
    Timeout(String),
}

impl AutodiscoveryError {
    /// The kind of the error (in declaration order) and its message.
    pub open spec fn parts(self) -> (int, Seq<char>) {
        match self {
            AutodiscoveryError::InvalidEmail(m) => (0, m@),
            AutodiscoveryError::HttpError(m) => (1, m@),
            AutodiscoveryError::XmlError(m) => (2, m@),
            AutodiscoveryError::DnsError(m) => (3, m@),
            AutodiscoveryError::NotFound(m) => (4, m@),
            AutodiscoveryError::ConnectionFailed(m) => (5, m@),
            AutodiscoveryError::Timeout(m) => (6, m@),
        }
    }
}

/// The view of a discovery result: the configuration, or the kind and
/// message of the error.
pub open spec fn result_view(r: Result<EmailDiscoveryConfig, AutodiscoveryError>) -> Result<DiscoveryView, (int, Seq<char>)> {
    match r {
        Ok(c) => Ok(c@),
        Err(e) => Err(e.parts()),
    }
}

/// Security of a mail connection.
#[derive(Clone, Copy, Debug, PartialEq, Eq, Structural)]
pub enum Security {
    /// No encryption.
    Plain,
    /// An upgrade with STARTTLS.
    Starttls,
    /// Implicit TLS.
    Tls,
}

impl Default for Security {
    fn default() -> (r: Self)
        ensures
            r == Security::Tls,
    {
        Security::Tls
    }
}

/// How the account authenticates.
#[derive(Clone, Copy, Debug, PartialEq, Eq, Structural)]
pub enum AuthMethod {
    Password,
    /// An app-specific password (iCloud, Yahoo).
    AppPassword,
}

impl Default for AuthMethod {
    fn default() -> (r: Self)
        ensures
            r == AuthMethod::Password,
    {
        AuthMethod::Password
    }
}

/// A server: host name, port and security.
pub struct ServerConfig {
    pub hostname: String,
    pub port: u16,
    pub security: Security,
}

/// The form the user name takes.
pub enum UsernameHint {
    /// The full address (`user@example.com`).
    FullEmail,
    /// The local part only (`user`).
    LocalPart,
    /// Another form.
    Custom(String),
}

impl Default for UsernameHint {
    fn default() -> (r: Self)
        ensures
            r is FullEmail,
    {
        UsernameHint::FullEmail
    }
}

/// A complete configuration discovered for an account.
pub struct EmailDiscoveryConfig {
    pub provider: Option<String>,
    pub provider_id: Option<String>,
    pub imap: ServerConfig,
    pub smtp: ServerConfig,
    pub auth_method: AuthMethod,
    pub username_hint: UsernameHint,
    pub requires_app_password: bool,
    /// Where the configuration came from (`known_provider`, `autoconfig`,
    /// `autodiscover`, `srv`, `mx` or `probe`).
    pub source: String,
}

/// A server, as character sequences.
pub struct ServerView {
    pub hostname: Seq<char>,
    pub port: u16,
    pub security: Security,
}

/// A user-name form.
pub enum HintView {
    FullEmail,
    LocalPart,
    Custom(Seq<char>),
}

/// A discovered configuration.
pub struct DiscoveryView {
    pub provider: Option<Seq<char>>,
    pub provider_id: Option<Seq<char>>,
    pub imap: ServerView,
    pub smtp: ServerView,
    pub auth_method: AuthMethod,
    pub username_hint: HintView,
    pub requires_app_password: bool,
    pub source: Seq<char>,
}

impl View for ServerConfig {
    type V = ServerView;

    open spec fn view(&self) -> ServerView {
        ServerView { hostname: self.hostname@, port: self.port, security: self.security }
    }
}

impl View for UsernameHint {
    type V = HintView;

    open spec fn view(&self) -> HintView {
        match self {
            UsernameHint::FullEmail => HintView::FullEmail,
            UsernameHint::LocalPart => HintView::LocalPart,
            UsernameHint::Custom(s) => HintView::Custom(s@),
        }
    }
}

impl View for EmailDiscoveryConfig {
    type V = DiscoveryView;

    open spec fn view(&self) -> DiscoveryView {
        DiscoveryView {
            provider: text::opt_view(self.provider),
            provider_id: text::opt_view(self.provider_id),
            imap: self.imap@,
            smtp: self.smtp@,
            auth_method: self.auth_method,
            username_hint: self.username_hint@,
            requires_app_password: self.requires_app_password,
            source: self.source@,
        }
    }
}

/// A server with the given host, port and security.
fn server(hostname: &str, port: u16, security: Security) -> (r: ServerConfig)
    ensures
        r@ == (ServerView { hostname: hostname@, port, security }),
{
    ServerConfig { hostname: hostname.to_string(), port, security }
}

// ── Known providers ─────────────────────────────────────────────────────────

/// The configuration of a known provider: full-address user names.
pub open spec fn known_view(
    provider: Seq<char>,
    provider_id: Seq<char>,
    imap: ServerView,
    smtp: ServerView,
    auth_method: AuthMethod,
    requires_app_password: bool,
) -> DiscoveryView {
    DiscoveryView {
        provider: Some(provider),
        provider_id: Some(provider_id),
        imap,
        smtp,
        auth_method,
        username_hint: HintView::FullEmail,
        requires_app_password,
        source: "known_provider"@,
    }
}

/// A server view.
pub open spec fn sv(hostname: Seq<char>, port: u16, security: Security) -> ServerView {
    ServerView { hostname, port, security }
}

/// The configuration of a known provider.
fn known(
    provider: &str,
    provider_id: &str,
    imap: ServerConfig,
    smtp: ServerConfig,
    auth_method: AuthMethod,
    requires_app_password: bool,
) -> (r: EmailDiscoveryConfig)
    ensures
        r@ == known_view(provider@, provider_id@, imap@, smtp@, auth_method, requires_app_password),
{
    EmailDiscoveryConfig {
        provider: Some(provider.to_string()),
        provider_id: Some(provider_id.to_string()),
        imap,
        smtp,
        auth_method,
        username_hint: UsernameHint::FullEmail,
        requires_app_password,
        source: "known_provider".to_string(),
    }
}

pub open spec fn google_view() -> DiscoveryView {
    known_view("Gmail"@, "gmail.com"@, sv("imap.gmail.com"@, 993, Security::Tls),
        sv("smtp.gmail.com"@, 587, Security::Starttls), AuthMethod::AppPassword, true)
}

pub open spec fn microsoft_view() -> DiscoveryView {
    known_view("Microsoft 365"@, "outlook.com"@, sv("outlook.office365.com"@, 993, Security::Tls),
        sv("smtp.office365.com"@, 587, Security::Starttls), AuthMethod::Password, false)
}

pub open spec fn microsoft_consumer_view() -> DiscoveryView {
    known_view("Outlook.com"@, "outlook.com"@, sv("outlook.office365.com"@, 993, Security::Tls),
        sv("smtp-mail.outlook.com"@, 587, Security::Starttls), AuthMethod::Password, false)
}

pub open spec fn yahoo_view() -> DiscoveryView {
    known_view("Yahoo Mail"@, "yahoo.com"@, sv("imap.mail.yahoo.com"@, 993, Security::Tls),
        sv("smtp.mail.yahoo.com"@, 465, Security::Tls), AuthMethod::AppPassword, true)
}

pub open spec fn aol_view() -> DiscoveryView {
    known_view("AOL Mail"@, "aol.com"@, sv("imap.aol.com"@, 993, Security::Tls),
        sv("smtp.aol.com"@, 465, Security::Tls), AuthMethod::AppPassword, true)
}

pub open spec fn icloud_view() -> DiscoveryView {
    known_view("iCloud"@, "icloud.com"@, sv("imap.mail.me.com"@, 993, Security::Tls),
        sv("smtp.mail.me.com"@, 587, Security::Starttls), AuthMethod::AppPassword, true)
}

pub open spec fn fastmail_view() -> DiscoveryView {
    known_view("Fastmail"@, "fastmail.com"@, sv("imap.fastmail.com"@, 993, Security::Tls),
        sv("smtp.fastmail.com"@, 465, Security::Tls), AuthMethod::AppPassword, true)
}

/// ProtonMail through its Bridge, which runs locally and provides its own
/// password.
pub open spec fn protonmail_view() -> DiscoveryView {
    known_view("ProtonMail"@, "protonmail.com"@, sv("127.0.0.1"@, 1143, Security::Starttls),
        sv("127.0.0.1"@, 1025, Security::Starttls), AuthMethod::Password, false)
}

pub open spec fn gmx_view() -> DiscoveryView {
    known_view("GMX"@, "gmx.com"@, sv("imap.gmx.com"@, 993, Security::Tls),
        sv("mail.gmx.com"@, 587, Security::Starttls), AuthMethod::Password, false)
}

pub open spec fn mail_com_view() -> DiscoveryView {
    known_view("mail.com"@, "mail.com"@, sv("imap.mail.com"@, 993, Security::Tls),
        sv("smtp.mail.com"@, 587, Security::Starttls), AuthMethod::Password, false)
}

pub open spec fn zoho_view() -> DiscoveryView {
    known_view("Zoho Mail"@, "zoho.com"@, sv("imap.zoho.com"@, 993, Security::Tls),
        sv("smtp.zoho.com"@, 465, Security::Tls), AuthMethod::Password, false)
}

/// Gmail; third-party IMAP access needs an app-specific password.
pub fn google_config(domain: &str) -> (r: EmailDiscoveryConfig)
    ensures
        r@ == google_view(),
{
    known("Gmail", "gmail.com", server("imap.gmail.com", 993, Security::Tls),
        server("smtp.gmail.com", 587, Security::Starttls), AuthMethod::AppPassword, true)
}

/// Microsoft 365 (custom domains).
pub fn microsoft_config(domain: &str) -> (r: EmailDiscoveryConfig)
    ensures
        r@ == microsoft_view(),
{
    known("Microsoft 365", "outlook.com", server("outlook.office365.com", 993, Security::Tls),
        server("smtp.office365.com", 587, Security::Starttls), AuthMethod::Password, false)
}

/// Outlook.com, Hotmail and Live.
pub fn microsoft_consumer_config(domain: &str) -> (r: EmailDiscoveryConfig)
    ensures
        r@ == microsoft_consumer_view(),
{
    known("Outlook.com", "outlook.com", server("outlook.office365.com", 993, Security::Tls),
        server("smtp-mail.outlook.com", 587, Security::Starttls), AuthMethod::Password, false)
}

/// Yahoo Mail; third-party IMAP access needs an app-specific password.
pub fn yahoo_config(domain: &str) -> (r: EmailDiscoveryConfig)
    ensures
        r@ == yahoo_view(),
{
    known("Yahoo Mail", "yahoo.com", server("imap.mail.yahoo.com", 993, Security::Tls),
        server("smtp.mail.yahoo.com", 465, Security::Tls), AuthMethod::AppPassword, true)
}

/// AOL, on Yahoo's infrastructure.
pub fn aol_config(domain: &str) -> (r: EmailDiscoveryConfig)
    ensures
        r@ == aol_view(),
{
    known("AOL Mail", "aol.com", server("imap.aol.com", 993, Security::Tls),
        server("smtp.aol.com", 465, Security::Tls), AuthMethod::AppPassword, true)
}

/// iCloud.
pub fn icloud_config(domain: &str) -> (r: EmailDiscoveryConfig)
    ensures
        r@ == icloud_view(),
{
    known("iCloud", "icloud.com", server("imap.mail.me.com", 993, Security::Tls),
        server("smtp.mail.me.com", 587, Security::Starttls), AuthMethod::AppPassword, true)
}

/// Fastmail.
pub fn fastmail_config(domain: &str) -> (r: EmailDiscoveryConfig)
    ensures
        r@ == fastmail_view(),
{
    known("Fastmail", "fastmail.com", server("imap.fastmail.com", 993, Security::Tls),
        server("smtp.fastmail.com", 465, Security::Tls), AuthMethod::AppPassword, true)
}

/// ProtonMail through its local Bridge.
pub fn protonmail_config(domain: &str) -> (r: EmailDiscoveryConfig)
    ensures
        r@ == protonmail_view(),
{
    known("ProtonMail", "protonmail.com", server("127.0.0.1", 1143, Security::Starttls),
        server("127.0.0.1", 1025, Security::Starttls), AuthMethod::Password, false)
}

/// GMX.
pub fn gmx_config(domain: &str) -> (r: EmailDiscoveryConfig)
    ensures
        r@ == gmx_view(),
{
    known("GMX", "gmx.com", server("imap.gmx.com", 993, Security::Tls),
        server("mail.gmx.com", 587, Security::Starttls), AuthMethod::Password, false)
}

/// mail.com (owned by GMX/1&1).
pub fn mail_com_config(domain: &str) -> (r: EmailDiscoveryConfig)
    ensures
        r@ == mail_com_view(),
{
    known("mail.com", "mail.com", server("imap.mail.com", 993, Security::Tls),
        server("smtp.mail.com", 587, Security::Starttls), AuthMethod::Password, false)
}

/// Zoho Mail.
pub fn zoho_config(domain: &str) -> (r: EmailDiscoveryConfig)
    ensures
        r@ == zoho_view(),
{
    known("Zoho Mail", "zoho.com", server("imap.zoho.com", 993, Security::Tls),
        server("smtp.zoho.com", 465, Security::Tls), AuthMethod::Password, false)
}


/// The domains of each known provider.
pub open spec fn google_domains() -> Seq<Seq<char>> {
    seq!["gmail.com"@, "googlemail.com"@, "google.com"@]
}

pub open spec fn microsoft_consumer_domains() -> Seq<Seq<char>> {
    seq![
        "outlook.com"@, "hotmail.com"@, "live.com"@, "msn.com"@, "hotmail.co.uk"@,
        "hotmail.fr"@, "hotmail.de"@, "outlook.co.uk"@, "outlook.fr"@, "outlook.de"@,
    ]
}

pub open spec fn yahoo_domains() -> Seq<Seq<char>> {
    seq![
        "yahoo.com"@, "yahoo.co.uk"@, "yahoo.fr"@, "yahoo.de"@, "yahoo.ca"@,
        "yahoo.com.au"@, "ymail.com"@, "rocketmail.com"@,
    ]
}

pub open spec fn icloud_domains() -> Seq<Seq<char>> {
    seq!["icloud.com"@, "me.com"@, "mac.com"@]
}

pub open spec fn fastmail_domains() -> Seq<Seq<char>> {
    seq!["fastmail.com"@, "fastmail.fm"@, "messagingengine.com"@]
}

pub open spec fn protonmail_domains() -> Seq<Seq<char>> {
    seq!["protonmail.com"@, "protonmail.ch"@, "pm.me"@, "proton.me"@]
}

pub open spec fn gmx_domains() -> Seq<Seq<char>> {
    seq!["gmx.com"@, "gmx.de"@, "gmx.net"@, "gmx.at"@, "gmx.ch"@]
}

/// The configuration of the known provider of a (lowercased) domain.
pub open spec fn known_provider(d: Seq<char>) -> Option<DiscoveryView> {
    if google_domains().contains(d) {
        Some(google_view())
    } else if microsoft_consumer_domains().contains(d) {
        Some(microsoft_consumer_view())
    } else if yahoo_domains().contains(d) {
        Some(yahoo_view())
    } else if d == "aol.com"@ {
        Some(aol_view())
    } else if icloud_domains().contains(d) {
        Some(icloud_view())
    } else if fastmail_domains().contains(d) {
        Some(fastmail_view())
    } else if protonmail_domains().contains(d) {
        Some(protonmail_view())
    } else if gmx_domains().contains(d) {
        Some(gmx_view())
    } else if d == "mail.com"@ {
        Some(mail_com_view())
    } else if d == "zoho.com"@ {
        Some(zoho_view())
    } else {
        None
    }
}

/// Outlook.com, Hotmail, Live and MSN addresses, in any letter case, are a
/// known provider: Outlook.com, with IMAP at `outlook.office365.com:993`
/// over TLS and SMTP at `smtp-mail.outlook.com:587` with STARTTLS, a plain
/// password and the full address as user name.
pub proof fn law_microsoft_consumer_domains(domain: Seq<char>)
    requires
        seq![
            "outlook.com"@, "hotmail.com"@, "live.com"@, "msn.com"@, "hotmail.co.uk"@,
            "hotmail.fr"@, "hotmail.de"@, "outlook.co.uk"@, "outlook.fr"@, "outlook.de"@,
        ].contains(text::lowercase(domain)),
    ensures
        known_provider(text::lowercase(domain)) == Some(known_view(
            "Outlook.com"@,
            "outlook.com"@,
            sv("outlook.office365.com"@, 993, Security::Tls),
            sv("smtp-mail.outlook.com"@, 587, Security::Starttls),
            AuthMethod::Password,
            false,
        )),
{
    let d = text::lowercase(domain);
    reveal_strlit("gmail.com");
    reveal_strlit("googlemail.com");
    reveal_strlit("google.com");
    reveal_strlit("outlook.com");
    reveal_strlit("hotmail.com");
    reveal_strlit("live.com");
    reveal_strlit("msn.com");
    reveal_strlit("hotmail.co.uk");
    reveal_strlit("hotmail.fr");
    reveal_strlit("hotmail.de");
    reveal_strlit("outlook.co.uk");
    reveal_strlit("outlook.fr");
    reveal_strlit("outlook.de");
    assert(microsoft_consumer_domains().contains(d));
    assert(!google_domains().contains(d)) by {
        if google_domains().contains(d) {
            let g = choose|g: int| 0 <= g < google_domains().len() && google_domains()[g] == d;
            assert(google_domains()[g].len() != d.len() || google_domains()[g][0] != d[0]);
        }
    }
}

/// The view of an optional configuration.
pub open spec fn opt_config(o: Option<EmailDiscoveryConfig>) -> Option<DiscoveryView> {
    match o {
        Some(c) => Some(c@),
        None => None,
    }
}

/// Whether `d` is one of the strings of `list`.
fn in_list(d: &[char], list: Vec<&str>) -> (r: bool)
    ensures
        r == text::str_views(list@).contains(d@),
{
    text::list_contains(&list, d)
}

/// The configuration of a known provider for the domain, compared in
/// lowercase.
pub fn check_known_provider(email: &str, domain: &str) -> (r: Option<EmailDiscoveryConfig>)
    ensures
        opt_config(r) == known_provider(text::lowercase(domain@)),
{
    let d = text::lower_chars(text::str_chars(domain).as_slice());
    let google = vec!["gmail.com", "googlemail.com", "google.com"];
    assert(text::str_views(google@) =~= google_domains());
    if in_list(d.as_slice(), google) {
        return Some(google_config(domain));
    }
    let ms = vec![
        "outlook.com", "hotmail.com", "live.com", "msn.com", "hotmail.co.uk",
        "hotmail.fr", "hotmail.de", "outlook.co.uk", "outlook.fr", "outlook.de",
    ];
    assert(text::str_views(ms@) =~= microsoft_consumer_domains());
    if in_list(d.as_slice(), ms) {
        return Some(microsoft_consumer_config(domain));
    }
    let yahoo = vec![
        "yahoo.com", "yahoo.co.uk", "yahoo.fr", "yahoo.de", "yahoo.ca",
        "yahoo.com.au", "ymail.com", "rocketmail.com",
    ];
    assert(text::str_views(yahoo@) =~= yahoo_domains());
    if in_list(d.as_slice(), yahoo) {
        return Some(yahoo_config(domain));
    }
    if text::chars_eq(d.as_slice(), text::str_chars("aol.com").as_slice()) {
        return Some(aol_config(domain));
    }
    let icloud = vec!["icloud.com", "me.com", "mac.com"];
    assert(text::str_views(icloud@) =~= icloud_domains());
    if in_list(d.as_slice(), icloud) {
        return Some(icloud_config(domain));
    }
    let fastmail = vec!["fastmail.com", "fastmail.fm", "messagingengine.com"];
    assert(text::str_views(fastmail@) =~= fastmail_domains());
    if in_list(d.as_slice(), fastmail) {
        return Some(fastmail_config(domain));
    }
    let proton = vec!["protonmail.com", "protonmail.ch", "pm.me", "proton.me"];
    assert(text::str_views(proton@) =~= protonmail_domains());
    if in_list(d.as_slice(), proton) {
        return Some(protonmail_config(domain));
    }
    let gmx = vec!["gmx.com", "gmx.de", "gmx.net", "gmx.at", "gmx.ch"];
    assert(text::str_views(gmx@) =~= gmx_domains());
    if in_list(d.as_slice(), gmx) {
        return Some(gmx_config(domain));
    }
    if text::chars_eq(d.as_slice(), text::str_chars("mail.com").as_slice()) {
        return Some(mail_com_config(domain));
    }
    if text::chars_eq(d.as_slice(), text::str_chars("zoho.com").as_slice()) {
        return Some(zoho_config(domain));
    }
    None
}


// ── MX and SRV records ──────────────────────────────────────────────────────

/// Zoho detected from MX records.
pub open spec fn zoho_mx_view() -> DiscoveryView {
    DiscoveryView { source: "mx"@, ..zoho_view() }
}

/// A self-hosted server `mail.<domain>` detected from MX records.
pub open spec fn hosted_mx_view(domain: Seq<char>) -> DiscoveryView {
    DiscoveryView {
        provider: None,
        provider_id: None,
        imap: sv("mail."@ + domain, 993, Security::Tls),
        smtp: sv("mail."@ + domain, 587, Security::Starttls),
        auth_method: AuthMethod::Password,
        username_hint: HintView::FullEmail,
        requires_app_password: false,
        source: "mx"@,
    }
}

/// The configuration a (lowercased) MX host points to, by known patterns.
pub open spec fn mx_provider(mx: Seq<char>, domain: Seq<char>) -> Option<DiscoveryView> {
    if text::contains(mx, "google.com"@) || text::contains(mx, "googlemail.com"@)
        || text::ends_with(mx, "aspmx.l.google.com"@) || text::contains(mx, ".google.com"@) {
        Some(google_view())
    } else if text::contains(mx, "mail.protection.outlook.com"@) || text::contains(mx, "outlook.com"@)
        || text::contains(mx, "microsoft.com"@) {
        Some(microsoft_view())
    } else if text::contains(mx, "yahoodns.net"@) || text::contains(mx, "yahoo.com"@) {
        Some(yahoo_view())
    } else if text::contains(mx, "mail.icloud.com"@) || text::contains(mx, "apple.com"@) {
        Some(icloud_view())
    } else if text::contains(mx, "messagingengine.com"@) || text::contains(mx, "fastmail.com"@) {
        Some(fastmail_view())
    } else if text::contains(mx, "protonmail.ch"@) || text::contains(mx, "pm.me"@) {
        Some(protonmail_view())
    } else if text::contains(mx, "zoho.com"@) || text::contains(mx, "zoho.eu"@) {
        Some(zoho_mx_view())
    } else if text::starts_with(mx, "mail."@) && text::ends_with(mx, domain) {
        Some(hosted_mx_view(domain))
    } else {
        None
    }
}

/// The configuration an MX host points to, compared in lowercase.
pub fn detect_provider_from_mx(mx_host: &str, domain: &str) -> (r: Option<EmailDiscoveryConfig>)
    ensures
        opt_config(r) == mx_provider(text::lowercase(mx_host@), domain@),
{
    let mx = text::lower_chars(text::str_chars(mx_host).as_slice());
    let m = mx.as_slice();
    if text::contains_lit(m, "google.com") || text::contains_lit(m, "googlemail.com")
        || text::ends_with_chars(m, text::str_chars("aspmx.l.google.com").as_slice()) || text::contains_lit(m, ".google.com") {
        return Some(google_config(domain));
    }
    if text::contains_lit(m, "mail.protection.outlook.com") || text::contains_lit(m, "outlook.com")
        || text::contains_lit(m, "microsoft.com") {
        return Some(microsoft_config(domain));
    }
    if text::contains_lit(m, "yahoodns.net") || text::contains_lit(m, "yahoo.com") {
        return Some(yahoo_config(domain));
    }
    if text::contains_lit(m, "mail.icloud.com") || text::contains_lit(m, "apple.com") {
        return Some(icloud_config(domain));
    }
    if text::contains_lit(m, "messagingengine.com") || text::contains_lit(m, "fastmail.com") {
        return Some(fastmail_config(domain));
    }
    if text::contains_lit(m, "protonmail.ch") || text::contains_lit(m, "pm.me") {
        return Some(protonmail_config(domain));
    }
    if text::contains_lit(m, "zoho.com") || text::contains_lit(m, "zoho.eu") {
        let mut z = zoho_config(domain);
        z.source = "mx".to_string();
        return Some(z);
    }
    let dc = text::str_chars(domain);
    if text::starts_with_lit(m, "mail.") && text::ends_with_chars(m, dc.as_slice()) {
        let host = text::chars_to_string(text::lit_then("mail.", dc.as_slice()).as_slice());
        return Some(EmailDiscoveryConfig {
            provider: None,
            provider_id: None,
            imap: ServerConfig { hostname: host.clone(), port: 993, security: Security::Tls },
            smtp: ServerConfig { hostname: host, port: 587, security: Security::Starttls },
            auth_method: AuthMethod::Password,
            username_hint: UsernameHint::FullEmail,
            requires_app_password: false,
            source: "mx".to_string(),
        });
    }
    None
}


/// One answer of an SRV lookup.
pub struct SrvRecord {
    pub target: String,
    pub priority: u16,
    pub port: u16,
}

/// One answer of an MX lookup.
pub struct MxRecord {
    pub exchange: String,
    pub preference: u16,
}

/// The index of the first smallest key (`Iterator::min_by_key`).
pub open spec fn first_min(keys: Seq<u16>) -> int
    decreases keys.len(),
{
    if keys.len() <= 1 {
        0
    } else {
        let k = first_min(keys.drop_last());
        if keys.last() < keys[k] {
            keys.len() - 1
        } else {
            k
        }
    }
}

pub proof fn lemma_first_min_bounds(keys: Seq<u16>)
    requires
        keys.len() >= 1,
    ensures
        0 <= first_min(keys) < keys.len(),
        forall|j: int| 0 <= j < keys.len() ==> keys[first_min(keys)] <= #[trigger] keys[j],
        forall|j: int| 0 <= j < first_min(keys) ==> keys[first_min(keys)] < #[trigger] keys[j],
    decreases keys.len(),
{
    if keys.len() > 1 {
        let d = keys.drop_last();
        lemma_first_min_bounds(d);
        let m = first_min(keys);
        assert(d[first_min(d)] == keys[first_min(d)]);
        assert forall|j: int| 0 <= j < keys.len() implies keys[m] <= #[trigger] keys[j] by {
            if j < keys.len() - 1 {
                assert(d[j] == keys[j]);
            }
        }
        assert forall|j: int| 0 <= j < m implies keys[m] < #[trigger] keys[j] by {
            if j < keys.len() - 1 {
                assert(d[j] == keys[j]);
            }
        }
    }
}

/// The index of the first smallest key.
fn first_min_exec(keys: &Vec<u16>) -> (r: usize)
    requires
        keys@.len() >= 1,
    ensures
        r == first_min(keys@),
{
    let mut best: usize = 0;
    let mut i: usize = 1;
    assert(keys@.take(1).len() == 1);
    while i < keys.len()
        invariant
            1 <= i <= keys@.len(),
            best == first_min(keys@.take(i as int)),
            best < i,
        decreases keys@.len() - i,
    {
        assert(keys@.take(i + 1).drop_last() =~= keys@.take(i as int));
        proof { lemma_first_min_bounds(keys@.take(i as int)); }
        if keys[i] < keys[best] {
            best = i;
        }
        i += 1;
    }
    assert(keys@.take(keys@.len() as int) =~= keys@);
    best
}

/// The priorities of SRV answers.
pub open spec fn srv_priorities(recs: Seq<SrvRecord>) -> Seq<u16> {
    recs.map_values(|r: SrvRecord| r.priority)
}

/// What an SRV lookup offers: the target (without trailing dots) and port
/// of the first answer of lowest priority, unless the target is empty
/// (the service is not offered).
pub open spec fn srv_choice(recs: Seq<SrvRecord>) -> Option<(Seq<char>, u16)> {
    if recs.len() == 0 {
        None
    } else {
        let r = recs[first_min(srv_priorities(recs))];
        let host = text::trim_end_char(r.target@, '.');
        if host == "."@ || host.len() == 0 {
            None
        } else {
            Some((host, r.port))
        }
    }
}

/// The view of an offered service.
pub open spec fn service_view(o: Option<(String, u16)>) -> Option<(Seq<char>, u16)> {
    match o {
        Some((h, p)) => Some((h@, p)),
        None => None,
    }
}

/// The host and port an SRV lookup offers (see [`srv_choice`]).
pub fn query_srv(records: &Vec<SrvRecord>) -> (r: Option<(String, u16)>)
    ensures
        service_view(r) == srv_choice(records@),
{
    if records.len() == 0 {
        return None;
    }
    let mut keys: Vec<u16> = Vec::new();
    let mut i: usize = 0;
    while i < records.len()
        invariant
            i <= records@.len(),
            keys@ == srv_priorities(records@).take(i as int),
        decreases records@.len() - i,
    {
        keys.push(records[i].priority);
        assert(srv_priorities(records@).take(i + 1) =~= srv_priorities(records@).take(i as int).push(records@[i as int].priority));
        i += 1;
    }
    assert(keys@ =~= srv_priorities(records@));
    let k = first_min_exec(&keys);
    proof { lemma_first_min_bounds(keys@); }
    let r = &records[k];
    let tc = text::string_chars(&r.target);
    let host = text::trim_end_char_exec(tc.as_slice(), '.');
    if text::chars_eq(host.as_slice(), text::str_chars(".").as_slice()) || host.len() == 0 {
        None
    } else {
        Some((text::chars_to_string(host.as_slice()), r.port))
    }
}

/// The configuration from SRV lookups: IMAP over TLS (`_imaps`) or with
/// STARTTLS (`_imap`), required; submission over TLS (`_submissions`), with
/// STARTTLS (`_submission`) or plain SMTP with STARTTLS (`_smtp`), else the
/// IMAP host on port 587 with STARTTLS.
pub open spec fn srv_view(
    imaps: Option<(Seq<char>, u16)>,
    imap: Option<(Seq<char>, u16)>,
    submissions: Option<(Seq<char>, u16)>,
    submission: Option<(Seq<char>, u16)>,
    smtp: Option<(Seq<char>, u16)>,
) -> Result<DiscoveryView, (int, Seq<char>)> {
    let imap_server = match imaps {
        Some((h, p)) => Some(sv(h, p, Security::Tls)),
        None => match imap {
            Some((h, p)) => Some(sv(h, p, Security::Starttls)),
            None => None,
        },
    };
    match imap_server {
        None => Err((3, "No IMAP SRV records found"@)),
        Some(i) => {
            let smtp_server = match submissions {
                Some((h, p)) => sv(h, p, Security::Tls),
                None => match submission {
                    Some((h, p)) => sv(h, p, Security::Starttls),
                    None => match smtp {
                        Some((h, p)) => sv(h, p, Security::Starttls),
                        None => sv(i.hostname, 587, Security::Starttls),
                    },
                },
            };
            Ok(DiscoveryView {
                provider: None,
                provider_id: None,
                imap: i,
                smtp: smtp_server,
                auth_method: AuthMethod::Password,
                username_hint: HintView::FullEmail,
                requires_app_password: false,
                source: "srv"@,
            })
        },
    }
}

/// The configuration from what the SRV lookups offered (see [`srv_view`]);
/// a lookup that was not made is `None`.
pub fn srv_config(
    imaps: Option<(String, u16)>,
    imap: Option<(String, u16)>,
    submissions: Option<(String, u16)>,
    submission: Option<(String, u16)>,
    smtp: Option<(String, u16)>,
) -> (r: Result<EmailDiscoveryConfig, AutodiscoveryError>)
    ensures
        result_view(r) == srv_view(service_view(imaps), service_view(imap), service_view(submissions),
            service_view(submission), service_view(smtp)),
{
    let imap_server = match imaps {
        Some((h, p)) => ServerConfig { hostname: h, port: p, security: Security::Tls },
        None => match imap {
            Some((h, p)) => ServerConfig { hostname: h, port: p, security: Security::Starttls },
            None => {
                return Err(AutodiscoveryError::DnsError("No IMAP SRV records found".to_string()));
            },
        },
    };
    let smtp_server = match submissions {
        Some((h, p)) => ServerConfig { hostname: h, port: p, security: Security::Tls },
        None => match submission {
            Some((h, p)) => ServerConfig { hostname: h, port: p, security: Security::Starttls },
            None => match smtp {
                Some((h, p)) => ServerConfig { hostname: h, port: p, security: Security::Starttls },
                None => ServerConfig { hostname: imap_server.hostname.clone(), port: 587, security: Security::Starttls },
            },
        },
    };
    Ok(EmailDiscoveryConfig {
        provider: None,
        provider_id: None,
        imap: imap_server,
        smtp: smtp_server,
        auth_method: AuthMethod::Password,
        username_hint: UsernameHint::FullEmail,
        requires_app_password: false,
        source: "srv".to_string(),
    })
}

/// The preferences of MX answers.
pub open spec fn mx_preferences(recs: Seq<MxRecord>) -> Seq<u16> {
    recs.map_values(|r: MxRecord| r.preference)
}

/// The primary MX host: the exchange of the first answer of lowest
/// preference, lowercased and without trailing dots.
pub open spec fn primary_mx(recs: Seq<MxRecord>) -> Seq<char> {
    text::trim_end_char(text::lowercase(recs[first_min(mx_preferences(recs))].exchange@), '.')
}

/// The configuration from MX answers: none is an error, and a primary host
/// of no known pattern is not found.
pub open spec fn mx_view(recs: Seq<MxRecord>, domain: Seq<char>) -> Result<DiscoveryView, (int, Seq<char>)> {
    if recs.len() == 0 {
        Err((3, "No MX records found"@))
    } else {
        match mx_provider(text::lowercase(primary_mx(recs)), domain) {
            Some(c) => Ok(c),
            None => Err((4, "Unknown provider for MX: "@ + primary_mx(recs))),
        }
    }
}

/// The configuration the MX answers for a domain point to (see
/// [`mx_view`]).
pub fn mx_analysis(records: &Vec<MxRecord>, domain: &str) -> (r: Result<EmailDiscoveryConfig, AutodiscoveryError>)
    ensures
        result_view(r) == mx_view(records@, domain@),
{
    if records.len() == 0 {
        return Err(AutodiscoveryError::DnsError("No MX records found".to_string()));
    }
    let mut keys: Vec<u16> = Vec::new();
    let mut i: usize = 0;
    while i < records.len()
        invariant
            i <= records@.len(),
            keys@ == mx_preferences(records@).take(i as int),
        decreases records@.len() - i,
    {
        keys.push(records[i].preference);
        assert(mx_preferences(records@).take(i + 1) =~= mx_preferences(records@).take(i as int).push(records@[i as int].preference));
        i += 1;
    }
    assert(keys@ =~= mx_preferences(records@));
    let k = first_min_exec(&keys);
    proof { lemma_first_min_bounds(keys@); }
    let lower = text::lower_chars(text::string_chars(&records[k].exchange).as_slice());
    let host_chars = text::trim_end_char_exec(lower.as_slice(), '.');
    let host = text::chars_to_string(host_chars.as_slice());
    match detect_provider_from_mx(host.as_str(), domain) {
        Some(c) => Ok(c),
        None => {
            let msg = text::lit_then("Unknown provider for MX: ", host_chars.as_slice());
            Err(AutodiscoveryError::NotFound(text::chars_to_string(msg.as_slice())))
        },
    }
}


// ── Mozilla autoconfig ──────────────────────────────────────────────────────

/// An autoconfig document (`clientConfig`).
pub struct ClientConfig {
    pub email_provider: Option<EmailProvider>,
}

/// The `emailProvider` element of an autoconfig document.
pub struct EmailProvider {
    pub id: Option<String>,
    pub display_name: Option<String>,
    pub display_short_name: Option<String>,
    pub incoming_servers: Vec<IncomingServer>,
    pub outgoing_servers: Vec<OutgoingServer>,
}

/// An `incomingServer` element.
pub struct IncomingServer {
    pub server_type: Option<String>,
    pub hostname: Option<String>,
    pub port: Option<u16>,
    pub socket_type: Option<String>,
    pub username: Option<String>,
    pub authentication: Option<String>,
}

/// An `outgoingServer` element.
pub struct OutgoingServer {
    pub server_type: Option<String>,
    pub hostname: Option<String>,
    pub port: Option<u16>,
    pub socket_type: Option<String>,
    pub username: Option<String>,
    pub authentication: Option<String>,
}

/// A server element: type, host name, port, socket type and user name.
pub struct EntryServerView {
    pub server_type: Option<Seq<char>>,
    pub hostname: Option<Seq<char>>,
    pub port: Option<u16>,
    pub socket_type: Option<Seq<char>>,
    pub username: Option<Seq<char>>,
}

impl View for IncomingServer {
    type V = EntryServerView;

    open spec fn view(&self) -> EntryServerView {
        EntryServerView {
            server_type: text::opt_view(self.server_type),
            hostname: text::opt_view(self.hostname),
            port: self.port,
            socket_type: text::opt_view(self.socket_type),
            username: text::opt_view(self.username),
        }
    }
}

impl View for OutgoingServer {
    type V = EntryServerView;

    open spec fn view(&self) -> EntryServerView {
        EntryServerView {
            server_type: text::opt_view(self.server_type),
            hostname: text::opt_view(self.hostname),
            port: self.port,
            socket_type: text::opt_view(self.socket_type),
            username: text::opt_view(self.username),
        }
    }
}

/// The part of an address before the first `@`.
pub open spec fn local_part(email: Seq<char>) -> Seq<char> {
    text::split_char(email, '@')[0]
}

/// The part of an address after the first `@`, if any.
pub open spec fn email_domain(email: Seq<char>, fallback: Seq<char>) -> Seq<char> {
    let parts = text::split_char(email, '@');
    if parts.len() > 1 { parts[1] } else { fallback }
}

/// A template with the autoconfig placeholders filled in, replaced in this
/// order: `%EMAILADDRESS%` and `%EMAIL%` by the address,
/// `%EMAILLOCALPART%` by its local part, `%EMAILDOMAIN%` by its domain (or
/// `domain` when the address has none).
pub open spec fn placeholders_filled(template: Seq<char>, email: Seq<char>, domain: Seq<char>) -> Seq<char> {
    text::replace(
        text::replace(
            text::replace(text::replace(template, "%EMAILADDRESS%"@, email), "%EMAIL%"@, email),
            "%EMAILLOCALPART%"@,
            local_part(email),
        ),
        "%EMAILDOMAIN%"@,
        email_domain(email, domain),
    )
}

/// Fills in the autoconfig placeholders of a template.
pub fn apply_placeholders(template: &str, email: &str, domain: &str) -> (r: String)
    ensures
        r@ == placeholders_filled(template@, email@, domain@),
{
    let ec = text::str_chars(email);
    let parts = text::split_char_exec(ec.as_slice(), '@');
    proof {
        text::lemma_split_char_nonempty(email@, '@');
        reveal_strlit("%EMAILADDRESS%");
        reveal_strlit("%EMAIL%");
        reveal_strlit("%EMAILLOCALPART%");
        reveal_strlit("%EMAILDOMAIN%");
    }
    let local = text::copy_chars(&parts[0]);
    let dom = if parts.len() > 1 { text::copy_chars(&parts[1]) } else { text::str_chars(domain) };
    let t = text::str_chars(template);
    let a = text::replace_exec(t.as_slice(), text::str_chars("%EMAILADDRESS%").as_slice(), ec.as_slice());
    let b = text::replace_exec(a.as_slice(), text::str_chars("%EMAIL%").as_slice(), ec.as_slice());
    let c = text::replace_exec(b.as_slice(), text::str_chars("%EMAILLOCALPART%").as_slice(), local.as_slice());
    let d = text::replace_exec(c.as_slice(), text::str_chars("%EMAILDOMAIN%").as_slice(), dom.as_slice());
    text::chars_to_string(d.as_slice())
}

/// The security an autoconfig `socketType` names: `SSL` and `TLS` are
/// TLS, `STARTTLS` is STARTTLS, `plain` and `PLAIN` are plain; anything
/// else (or nothing) is TLS.
pub open spec fn socket_security(socket_type: Option<Seq<char>>) -> Security {
    match socket_type {
        Some(t) => if t == "SSL"@ || t == "TLS"@ {
            Security::Tls
        } else if t == "STARTTLS"@ {
            Security::Starttls
        } else if t == "plain"@ || t == "PLAIN"@ {
            Security::Plain
        } else {
            Security::Tls
        },
        None => Security::Tls,
    }
}

/// The security an autoconfig `socketType` names.
pub fn parse_socket_type(socket_type: Option<&str>) -> (r: Security)
    ensures
        r == socket_security(match socket_type { Some(t) => Some(t@), None => None }),
{
    match socket_type {
        Some(t) => {
            let tc = text::str_chars(t);
            let v = tc.as_slice();
            if text::chars_eq(v, text::str_chars("SSL").as_slice()) || text::chars_eq(v, text::str_chars("TLS").as_slice()) {
                Security::Tls
            } else if text::chars_eq(v, text::str_chars("STARTTLS").as_slice()) {
                Security::Starttls
            } else if text::chars_eq(v, text::str_chars("plain").as_slice()) || text::chars_eq(v, text::str_chars("PLAIN").as_slice()) {
                Security::Plain
            } else {
                Security::Tls
            }
        },
        None => Security::Tls,
    }
}

/// The user-name form an autoconfig `username` template names: the address
/// placeholders are the full address, the local-part placeholder is the
/// local part; another template with a `%` is filled in (with no fallback
/// domain) and compared with the address and its local part; anything else
/// is the full address.
pub open spec fn username_form(username: Option<Seq<char>>, email: Seq<char>) -> HintView {
    match username {
        Some(u) => if u == "%EMAILADDRESS%"@ || u == "%EMAIL%"@ {
            HintView::FullEmail
        } else if u == "%EMAILLOCALPART%"@ {
            HintView::LocalPart
        } else if text::has_char(u, '%') {
            let resolved = placeholders_filled(u, email, Seq::empty());
            if resolved == email {
                HintView::FullEmail
            } else if resolved == local_part(email) {
                HintView::LocalPart
            } else {
                HintView::Custom(resolved)
            }
        } else {
            HintView::FullEmail
        },
        None => HintView::FullEmail,
    }
}

/// The user-name form an autoconfig `username` template names.
pub fn parse_username_hint(username: Option<&str>, email: &str) -> (r: UsernameHint)
    ensures
        r@ == username_form(match username { Some(u) => Some(u@), None => None }, email@),
{
    match username {
        Some(u) => {
            let uc = text::str_chars(u);
            let v = uc.as_slice();
            if text::chars_eq(v, text::str_chars("%EMAILADDRESS%").as_slice())
                || text::chars_eq(v, text::str_chars("%EMAIL%").as_slice()) {
                UsernameHint::FullEmail
            } else if text::chars_eq(v, text::str_chars("%EMAILLOCALPART%").as_slice()) {
                UsernameHint::LocalPart
            } else if text::has_char_exec(v, '%') {
                let resolved = apply_placeholders(u, email, "");
                proof {
                    reveal_strlit("");
                    assert(""@ =~= Seq::<char>::empty());
                }
                let rc = text::string_chars(&resolved);
                let ec = text::str_chars(email);
                let parts = text::split_char_exec(ec.as_slice(), '@');
                proof { text::lemma_split_char_nonempty(email@, '@'); }
                assert(parts@[0]@ == local_part(email@));
                if text::chars_eq(rc.as_slice(), ec.as_slice()) {
                    UsernameHint::FullEmail
                } else if text::chars_eq(rc.as_slice(), parts[0].as_slice()) {
                    UsernameHint::LocalPart
                } else {
                    UsernameHint::Custom(resolved)
                }
            } else {
                UsernameHint::FullEmail
            }
        },
        None => UsernameHint::FullEmail,
    }
}


/// The first server element from `from` on whose type is `kind`.
pub open spec fn first_of_type(s: Seq<EntryServerView>, kind: Seq<char>, from: int) -> Option<int>
    decreases s.len() - from,
{
    if from < 0 || from >= s.len() {
        None
    } else if s[from].server_type == Some(kind) {
        Some(from)
    } else {
        first_of_type(s, kind, from + 1)
    }
}

/// The server element to use: the first of the given type, else the first.
pub open spec fn pick_server(s: Seq<EntryServerView>, kind: Seq<char>) -> Option<int> {
    match first_of_type(s, kind, 0) {
        Some(i) => Some(i),
        None => if s.len() > 0 { Some(0) } else { None },
    }
}

pub proof fn lemma_first_of_type(s: Seq<EntryServerView>, kind: Seq<char>, from: int)
    ensures
        first_of_type(s, kind, from) matches Some(i) ==> from <= i < s.len() && s[i].server_type == Some(kind),
    decreases s.len() - from,
{
    if 0 <= from < s.len() && s[from].server_type != Some(kind) {
        lemma_first_of_type(s, kind, from + 1);
    }
}

/// An optional value, or nothing.
pub open spec fn or_empty(o: Option<Seq<char>>) -> Seq<char> {
    match o {
        Some(v) => v,
        None => Seq::empty(),
    }
}

/// A server from an autoconfig server element: its host name with the
/// placeholders filled in, its port (or `default_port`) and its security.
pub open spec fn entry_server(e: EntryServerView, default_port: u16, email: Seq<char>, domain: Seq<char>) -> ServerView {
    ServerView {
        hostname: placeholders_filled(or_empty(e.hostname), email, domain),
        port: match e.port { Some(p) => p, None => default_port },
        security: socket_security(e.socket_type),
    }
}

/// The views of an autoconfig document's incoming servers.
pub open spec fn incoming_views(p: EmailProvider) -> Seq<EntryServerView> {
    p.incoming_servers@.map_values(|s: IncomingServer| s@)
}

/// The views of an autoconfig document's outgoing servers.
pub open spec fn outgoing_views(p: EmailProvider) -> Seq<EntryServerView> {
    p.outgoing_servers@.map_values(|s: OutgoingServer| s@)
}

/// The configuration an autoconfig document gives: the IMAP server (or
/// first incoming server) and the SMTP server (or first outgoing server),
/// ports 993 and 587 when none is given, the user-name form of the incoming
/// server, and the provider's display name (or short name) with the
/// placeholders filled in.
pub open spec fn autoconfig_view(c: ClientConfig, email: Seq<char>, domain: Seq<char>) -> Result<DiscoveryView, (int, Seq<char>)> {
    match c.email_provider {
        None => Err((4, "No emailProvider in XML"@)),
        Some(p) => {
            let ins = incoming_views(p);
            let outs = outgoing_views(p);
            match pick_server(ins, "imap"@) {
                None => Err((4, "No incoming server in autoconfig"@)),
                Some(i) => match pick_server(outs, "smtp"@) {
                    None => Err((4, "No outgoing server in autoconfig"@)),
                    Some(o) => {
                        let name = if p.display_name is Some { p.display_name } else { p.display_short_name };
                        Ok(DiscoveryView {
                            provider: match name {
                                Some(n) => Some(placeholders_filled(n@, email, domain)),
                                None => None,
                            },
                            provider_id: text::opt_view(p.id),
                            imap: entry_server(ins[i], 993, email, domain),
                            smtp: entry_server(outs[o], 587, email, domain),
                            auth_method: AuthMethod::Password,
                            username_hint: username_form(ins[i].username, email),
                            requires_app_password: false,
                            source: "autoconfig"@,
                        })
                    },
                },
            }
        },
    }
}

/// Whether an optional string is exactly `lit`.
fn opt_is(o: &Option<String>, lit: &str) -> (r: bool)
    ensures
        r == (text::opt_view(*o) == Some(lit@)),
{
    match o {
        Some(s) => text::chars_eq(text::string_chars(s).as_slice(), text::str_chars(lit).as_slice()),
        None => false,
    }
}

/// The incoming server to use.
fn pick_incoming(servers: &Vec<IncomingServer>) -> (r: Option<usize>)
    ensures
        match r {
            Some(i) => pick_server(servers@.map_values(|s: IncomingServer| s@), "imap"@) == Some(i as int),
            None => pick_server(servers@.map_values(|s: IncomingServer| s@), "imap"@) is None,
        },
{
    let ghost sv = servers@.map_values(|s: IncomingServer| s@);
    let mut i: usize = 0;
    while i < servers.len()
        invariant
            i <= servers@.len(),
            sv == servers@.map_values(|s: IncomingServer| s@),
            first_of_type(sv, "imap"@, 0) == first_of_type(sv, "imap"@, i as int),
        decreases servers@.len() - i,
    {
        assert(sv[i as int] == servers@[i as int]@);
        if opt_is(&servers[i].server_type, "imap") {
            return Some(i);
        }
        i += 1;
    }
    if servers.len() > 0 { Some(0) } else { None }
}

/// The outgoing server to use.
fn pick_outgoing(servers: &Vec<OutgoingServer>) -> (r: Option<usize>)
    ensures
        match r {
            Some(i) => pick_server(servers@.map_values(|s: OutgoingServer| s@), "smtp"@) == Some(i as int),
            None => pick_server(servers@.map_values(|s: OutgoingServer| s@), "smtp"@) is None,
        },
{
    let ghost sv = servers@.map_values(|s: OutgoingServer| s@);
    let mut i: usize = 0;
    while i < servers.len()
        invariant
            i <= servers@.len(),
            sv == servers@.map_values(|s: OutgoingServer| s@),
            first_of_type(sv, "smtp"@, 0) == first_of_type(sv, "smtp"@, i as int),
        decreases servers@.len() - i,
    {
        assert(sv[i as int] == servers@[i as int]@);
        if opt_is(&servers[i].server_type, "smtp") {
            return Some(i);
        }
        i += 1;
    }
    if servers.len() > 0 { Some(0) } else { None }
}

/// A server from a server element's host name, port and socket type.
fn entry_server_exec(hostname: &Option<String>, port: Option<u16>, socket_type: &Option<String>, default_port: u16, email: &str, domain: &str) -> (r: ServerConfig)
    ensures
        r@ == entry_server(EntryServerView {
            server_type: None,
            hostname: text::opt_view(*hostname),
            port,
            socket_type: text::opt_view(*socket_type),
            username: None,
        }, default_port, email@, domain@),
{
    let host = match hostname {
        Some(h) => apply_placeholders(h.as_str(), email, domain),
        None => {
            proof {
                reveal_strlit("");
                assert(""@ =~= Seq::<char>::empty());
            }
            apply_placeholders("", email, domain)
        },
    };
    let security = match socket_type {
        Some(t) => parse_socket_type(Some(t.as_str())),
        None => parse_socket_type(None),
    };
    ServerConfig { hostname: host, port: match port { Some(p) => p, None => default_port }, security }
}

/// The configuration an autoconfig document gives (see
/// [`autoconfig_view`]).
pub fn discovery_from_client_config(config: ClientConfig, email: &str, domain: &str) -> (r: Result<EmailDiscoveryConfig, AutodiscoveryError>)
    ensures
        result_view(r) == autoconfig_view(config, email@, domain@),
{
    let provider = match config.email_provider {
        Some(p) => p,
        None => {
            return Err(AutodiscoveryError::NotFound("No emailProvider in XML".to_string()));
        },
    };
    let i = match pick_incoming(&provider.incoming_servers) {
        Some(i) => i,
        None => {
            return Err(AutodiscoveryError::NotFound("No incoming server in autoconfig".to_string()));
        },
    };
    let o = match pick_outgoing(&provider.outgoing_servers) {
        Some(o) => o,
        None => {
            return Err(AutodiscoveryError::NotFound("No outgoing server in autoconfig".to_string()));
        },
    };
    proof {
        lemma_first_of_type(incoming_views(provider), "imap"@, 0);
        lemma_first_of_type(outgoing_views(provider), "smtp"@, 0);
    }
    let inc = &provider.incoming_servers[i];
    let out = &provider.outgoing_servers[o];
    assert(incoming_views(provider)[i as int] == inc@);
    assert(outgoing_views(provider)[o as int] == out@);
    let imap = entry_server_exec(&inc.hostname, inc.port, &inc.socket_type, 993, email, domain);
    let smtp = entry_server_exec(&out.hostname, out.port, &out.socket_type, 587, email, domain);
    let hint = match &inc.username {
        Some(u) => parse_username_hint(Some(u.as_str()), email),
        None => parse_username_hint(None, email),
    };
    let name = if provider.display_name.is_some() { &provider.display_name } else { &provider.display_short_name };
    let provider_name = match name {
        Some(n) => Some(apply_placeholders(n.as_str(), email, domain)),
        None => None,
    };
    Ok(EmailDiscoveryConfig {
        provider: provider_name,
        provider_id: text::copy_opt(&provider.id),
        imap,
        smtp,
        auth_method: AuthMethod::Password,
        username_hint: hint,
        requires_app_password: false,
        source: "autoconfig".to_string(),
    })
}


// ── Autoconfig and Autodiscover endpoints ───────────────────────────────────

/// The autoconfig URLs to try, in order: Thunderbird's ISPDB, the domain's
/// `autoconfig` host, its well-known path, then both again over plain HTTP.
pub open spec fn autoconfig_url_list(email: Seq<char>, domain: Seq<char>) -> Seq<Seq<char>> {
    seq![
        "https://autoconfig.thunderbird.net/v1.1/"@ + domain,
        "https://autoconfig."@ + domain + "/mail/config-v1.1.xml?emailaddress="@ + email,
        "https://"@ + domain + "/.well-known/autoconfig/mail/config-v1.1.xml?emailaddress="@ + email,
        "http://autoconfig."@ + domain + "/mail/config-v1.1.xml?emailaddress="@ + email,
        "http://"@ + domain + "/.well-known/autoconfig/mail/config-v1.1.xml?emailaddress="@ + email,
    ]
}

/// `lit + a + lit2 + b`.
fn url4(lit: &str, a: &[char], lit2: &str, b: &[char]) -> (r: String)
    ensures
        r@ == lit@ + a@ + lit2@ + b@,
{
    let mut v = text::lit_then(lit, a);
    let l2 = text::str_chars(lit2);
    text::append_chars(&mut v, l2.as_slice());
    text::append_chars(&mut v, b);
    text::chars_to_string(v.as_slice())
}

/// The autoconfig URLs to try for an address (see [`autoconfig_url_list`]).
pub fn autoconfig_urls(email: &str, domain: &str) -> (r: Vec<String>)
    ensures
        text::string_views(r@) == autoconfig_url_list(email@, domain@),
{
    let e = text::str_chars(email);
    let d = text::str_chars(domain);
    let mut r: Vec<String> = Vec::new();
    r.push(text::chars_to_string(text::lit_then("https://autoconfig.thunderbird.net/v1.1/", d.as_slice()).as_slice()));
    r.push(url4("https://autoconfig.", d.as_slice(), "/mail/config-v1.1.xml?emailaddress=", e.as_slice()));
    r.push(url4("https://", d.as_slice(), "/.well-known/autoconfig/mail/config-v1.1.xml?emailaddress=", e.as_slice()));
    r.push(url4("http://autoconfig.", d.as_slice(), "/mail/config-v1.1.xml?emailaddress=", e.as_slice()));
    r.push(url4("http://", d.as_slice(), "/.well-known/autoconfig/mail/config-v1.1.xml?emailaddress=", e.as_slice()));
    assert(text::string_views(r@) =~= autoconfig_url_list(email@, domain@));
    r
}

/// The error when no autoconfig URL gave a configuration.
pub fn autoconfig_not_found(domain: &str) -> (r: AutodiscoveryError)
    ensures
        r.parts() == (4int, "No autoconfig found for "@ + domain@),
{
    let m = text::lit_then("No autoconfig found for ", text::str_chars(domain).as_slice());
    AutodiscoveryError::NotFound(text::chars_to_string(m.as_slice()))
}

/// The Microsoft 365 Autodiscover URL for an address.
pub fn office365_autodiscover_url(email: &str) -> (r: String)
    ensures
        r@ == "https://outlook.office365.com/autodiscover/autodiscover.json?Email="@ + email@ + "&Protocol=Ews"@,
{
    let mut v = text::lit_then("https://outlook.office365.com/autodiscover/autodiscover.json?Email=", text::str_chars(email).as_slice());
    text::append_chars(&mut v, text::str_chars("&Protocol=Ews").as_slice());
    text::chars_to_string(v.as_slice())
}

/// The Autodiscover URLs of an on-premises Exchange server for a domain.
pub open spec fn exchange_url_list(email: Seq<char>, domain: Seq<char>) -> Seq<Seq<char>> {
    seq![
        "https://"@ + domain + "/autodiscover/autodiscover.json?Email="@ + email + "&Protocol=Ews"@,
        "https://autodiscover."@ + domain + "/autodiscover/autodiscover.json?Email="@ + email + "&Protocol=Ews"@,
    ]
}

/// The Autodiscover URLs of an on-premises Exchange server, in order.
pub fn exchange_autodiscover_urls(email: &str, domain: &str) -> (r: Vec<String>)
    ensures
        text::string_views(r@) == exchange_url_list(email@, domain@),
{
    let e = text::str_chars(email);
    let d = text::str_chars(domain);
    let mut a = text::lit_then("https://", d.as_slice());
    text::append_chars(&mut a, text::str_chars("/autodiscover/autodiscover.json?Email=").as_slice());
    text::append_chars(&mut a, e.as_slice());
    text::append_chars(&mut a, text::str_chars("&Protocol=Ews").as_slice());
    let mut b = text::lit_then("https://autodiscover.", d.as_slice());
    text::append_chars(&mut b, text::str_chars("/autodiscover/autodiscover.json?Email=").as_slice());
    text::append_chars(&mut b, e.as_slice());
    text::append_chars(&mut b, text::str_chars("&Protocol=Ews").as_slice());
    let mut r: Vec<String> = Vec::new();
    r.push(text::chars_to_string(a.as_slice()));
    r.push(text::chars_to_string(b.as_slice()));
    assert(text::string_views(r@) =~= exchange_url_list(email@, domain@));
    r
}

/// Microsoft 365, found through Autodiscover.
pub open spec fn office365_view() -> DiscoveryView {
    DiscoveryView { source: "autodiscover"@, ..microsoft_view() }
}

/// The Microsoft 365 configuration found through Autodiscover.
pub fn office365_config() -> (r: EmailDiscoveryConfig)
    ensures
        r@ == office365_view(),
{
    let mut c = microsoft_config("");
    c.source = "autodiscover".to_string();
    c
}

/// An on-premises Exchange server at `mail.<domain>`, found through
/// Autodiscover.
pub open spec fn exchange_view(domain: Seq<char>) -> DiscoveryView {
    DiscoveryView {
        provider: Some("Exchange Server"@),
        provider_id: Some(domain),
        imap: sv("mail."@ + domain, 993, Security::Tls),
        smtp: sv("mail."@ + domain, 587, Security::Starttls),
        auth_method: AuthMethod::Password,
        username_hint: HintView::FullEmail,
        requires_app_password: false,
        source: "autodiscover"@,
    }
}

/// The configuration of an on-premises Exchange server.
pub fn exchange_config(domain: &str) -> (r: EmailDiscoveryConfig)
    ensures
        r@ == exchange_view(domain@),
{
    let host = text::chars_to_string(text::lit_then("mail.", text::str_chars(domain).as_slice()).as_slice());
    EmailDiscoveryConfig {
        provider: Some("Exchange Server".to_string()),
        provider_id: Some(domain.to_string()),
        imap: ServerConfig { hostname: host.clone(), port: 993, security: Security::Tls },
        smtp: ServerConfig { hostname: host, port: 587, security: Security::Starttls },
        auth_method: AuthMethod::Password,
        username_hint: UsernameHint::FullEmail,
        requires_app_password: false,
        source: "autodiscover".to_string(),
    }
}

/// The error when Autodiscover found nothing.
pub fn autodiscover_not_found(domain: &str) -> (r: AutodiscoveryError)
    ensures
        r.parts() == (4int, "No Autodiscover found for "@ + domain@),
{
    let m = text::lit_then("No Autodiscover found for ", text::str_chars(domain).as_slice());
    AutodiscoveryError::NotFound(text::chars_to_string(m.as_slice()))
}


// ── Probing ─────────────────────────────────────────────────────────────────

/// The host names to probe for a domain: `mail.`, then `second` (`imap.` or
/// `smtp.`), the domain itself, `mx.` and `email.`.
pub open spec fn probe_hosts(domain: Seq<char>, second: Seq<char>) -> Seq<Seq<char>> {
    seq!["mail."@ + domain, second + domain, domain, "mx."@ + domain, "email."@ + domain]
}

/// The IMAP servers to probe, in order: each host on port 993 with TLS,
/// then on port 143 with STARTTLS.
pub open spec fn imap_probe_plan(domain: Seq<char>) -> Seq<ServerView> {
    let hosts = probe_hosts(domain, "imap."@);
    Seq::new(10, |k: int| if k % 2 == 0 { sv(hosts[k / 2], 993, Security::Tls) } else { sv(hosts[k / 2], 143, Security::Starttls) })
}

/// The SMTP servers to probe, in order: each host on port 587 with STARTTLS,
/// on port 465 with TLS, then on port 25 with STARTTLS.
pub open spec fn smtp_probe_plan(domain: Seq<char>) -> Seq<ServerView> {
    let hosts = probe_hosts(domain, "smtp."@);
    Seq::new(15, |k: int| if k % 3 == 0 {
        sv(hosts[k / 3], 587, Security::Starttls)
    } else if k % 3 == 1 {
        sv(hosts[k / 3], 465, Security::Tls)
    } else {
        sv(hosts[k / 3], 25, Security::Starttls)
    })
}

/// The views of a list of servers.
pub open spec fn server_views(v: Seq<ServerConfig>) -> Seq<ServerView> {
    v.map_values(|s: ServerConfig| s@)
}

/// The host names to probe.
fn probe_hosts_exec(domain: &str, second: &str) -> (r: Vec<String>)
    ensures
        text::string_views(r@) == probe_hosts(domain@, second@),
{
    let d = text::str_chars(domain);
    let mut r: Vec<String> = Vec::new();
    r.push(text::chars_to_string(text::lit_then("mail.", d.as_slice()).as_slice()));
    r.push(text::chars_to_string(text::lit_then(second, d.as_slice()).as_slice()));
    r.push(domain.to_string());
    r.push(text::chars_to_string(text::lit_then("mx.", d.as_slice()).as_slice()));
    r.push(text::chars_to_string(text::lit_then("email.", d.as_slice()).as_slice()));
    assert(text::string_views(r@) =~= probe_hosts(domain@, second@));
    r
}

/// The IMAP servers to probe for a domain (see [`imap_probe_plan`]).
pub fn imap_probe_candidates(domain: &str) -> (r: Vec<ServerConfig>)
    ensures
        server_views(r@) == imap_probe_plan(domain@),
{
    let hosts = probe_hosts_exec(domain, "imap.");
    let ghost hv = text::string_views(hosts@);
    assert(hv.len() == 5 && hosts@.len() == hv.len());
    let mut r: Vec<ServerConfig> = Vec::new();
    let mut i: usize = 0;
    while i < hosts.len()
        invariant
            i <= hosts@.len() == 5,
            hv == text::string_views(hosts@),
            hv == probe_hosts(domain@, "imap."@),
            server_views(r@) == imap_probe_plan(domain@).take(2 * i),
        decreases hosts@.len() - i,
    {
        assert(hv[i as int] == hosts@[i as int]@);
        let ghost r0 = r@;
        r.push(ServerConfig { hostname: hosts[i].clone(), port: 993, security: Security::Tls });
        r.push(ServerConfig { hostname: hosts[i].clone(), port: 143, security: Security::Starttls });
        assert(server_views(r@) =~= imap_probe_plan(domain@).take(2 * i + 2)) by {
            assert(server_views(r@) =~= server_views(r0).push(sv(hv[i as int], 993, Security::Tls)).push(sv(hv[i as int], 143, Security::Starttls)));
            assert((2 * i) / 2 == i);
            assert((2 * i + 1) / 2 == i);
            assert((2 * i) % 2 == 0);
            assert((2 * i + 1) % 2 == 1);
        }
        i += 1;
    }
    assert(imap_probe_plan(domain@).take(10) =~= imap_probe_plan(domain@));
    r
}

/// The SMTP servers to probe for a domain (see [`smtp_probe_plan`]).
pub fn smtp_probe_candidates(domain: &str) -> (r: Vec<ServerConfig>)
    ensures
        server_views(r@) == smtp_probe_plan(domain@),
{
    let hosts = probe_hosts_exec(domain, "smtp.");
    let ghost hv = text::string_views(hosts@);
    assert(hv.len() == 5 && hosts@.len() == hv.len());
    let mut r: Vec<ServerConfig> = Vec::new();
    let mut i: usize = 0;
    while i < hosts.len()
        invariant
            i <= hosts@.len() == 5,
            hv == text::string_views(hosts@),
            hv == probe_hosts(domain@, "smtp."@),
            server_views(r@) == smtp_probe_plan(domain@).take(3 * i),
        decreases hosts@.len() - i,
    {
        assert(hv[i as int] == hosts@[i as int]@);
        let ghost r0 = r@;
        r.push(ServerConfig { hostname: hosts[i].clone(), port: 587, security: Security::Starttls });
        r.push(ServerConfig { hostname: hosts[i].clone(), port: 465, security: Security::Tls });
        r.push(ServerConfig { hostname: hosts[i].clone(), port: 25, security: Security::Starttls });
        assert(server_views(r@) =~= smtp_probe_plan(domain@).take(3 * i + 3)) by {
            assert(server_views(r@) =~= server_views(r0).push(sv(hv[i as int], 587, Security::Starttls))
                .push(sv(hv[i as int], 465, Security::Tls)).push(sv(hv[i as int], 25, Security::Starttls)));
            assert((3 * i) / 3 == i);
            assert((3 * i + 1) / 3 == i);
            assert((3 * i + 2) / 3 == i);
            assert((3 * i) % 3 == 0);
            assert((3 * i + 1) % 3 == 1);
            assert((3 * i + 2) % 3 == 2);
        }
        i += 1;
    }
    assert(smtp_probe_plan(domain@).take(15) =~= smtp_probe_plan(domain@));
    r
}

/// The configuration from probing: the IMAP server found (required) and
/// the SMTP server found, else the IMAP host on port 587 with STARTTLS.
pub open spec fn probe_view(imap: Option<ServerView>, smtp: Option<ServerView>) -> Result<DiscoveryView, (int, Seq<char>)> {
    match imap {
        None => Err((5, "Could not find a working IMAP server"@)),
        Some(i) => Ok(DiscoveryView {
            provider: None,
            provider_id: None,
            imap: i,
            smtp: match smtp {
                Some(s) => s,
                None => sv(i.hostname, 587, Security::Starttls),
            },
            auth_method: AuthMethod::Password,
            username_hint: HintView::FullEmail,
            requires_app_password: false,
            source: "probe"@,
        }),
    }
}

/// The view of an optional server.
pub open spec fn opt_server(o: Option<ServerConfig>) -> Option<ServerView> {
    match o {
        Some(s) => Some(s@),
        None => None,
    }
}

/// The configuration from the first IMAP and SMTP servers that answered a
/// probe (see [`probe_view`]).
pub fn probe_result(imap: Option<ServerConfig>, smtp: Option<ServerConfig>) -> (r: Result<EmailDiscoveryConfig, AutodiscoveryError>)
    ensures
        result_view(r) == probe_view(opt_server(imap), opt_server(smtp)),
{
    let imap = match imap {
        Some(i) => i,
        None => {
            return Err(AutodiscoveryError::ConnectionFailed("Could not find a working IMAP server".to_string()));
        },
    };
    let smtp = match smtp {
        Some(s) => s,
        None => ServerConfig { hostname: imap.hostname.clone(), port: 587, security: Security::Starttls },
    };
    Ok(EmailDiscoveryConfig {
        provider: None,
        provider_id: None,
        imap,
        smtp,
        auth_method: AuthMethod::Password,
        username_hint: UsernameHint::FullEmail,
        requires_app_password: false,
        source: "probe".to_string(),
    })
}

/// The next step of probing candidates in order: probe candidate `i`, stop
/// at candidate `i` (the first that answered), or stop with none.
pub enum ProbeStep {
    Probe(usize),
    Found(usize),
    Exhausted,
}

/// The first index at or after `from` whose probe answered.
pub open spec fn first_answer(answers: Seq<bool>, from: int) -> Option<int>
    decreases answers.len() - from,
{
    if from < 0 || from >= answers.len() {
        None
    } else if answers[from] {
        Some(from)
    } else {
        first_answer(answers, from + 1)
    }
}

pub proof fn lemma_first_answer(answers: Seq<bool>, from: int)
    requires
        0 <= from,
    ensures
        first_answer(answers, from) matches Some(i) ==> from <= i < answers.len() && answers[i]
            && forall|j: int| from <= j < i ==> !answers[j],
        first_answer(answers, from) is None ==> forall|j: int| from <= j < answers.len() ==> !answers[j],
    decreases answers.len() - from,
{
    if from < answers.len() && !answers[from] {
        lemma_first_answer(answers, from + 1);
    }
}

/// What to do after probing the first `answers.len()` of `n` candidates, in
/// order, with those outcomes: stop at the first that answered, else probe
/// the next one, else stop with none.
pub fn probe_next(answers: &Vec<bool>, n: usize) -> (r: ProbeStep)
    requires
        answers@.len() <= n,
    ensures
        match first_answer(answers@, 0) {
            Some(i) => r == ProbeStep::Found(i as usize),
            None => if answers@.len() < n { r == ProbeStep::Probe(answers@.len() as usize) } else { r == ProbeStep::Exhausted },
        },
{
    let mut i: usize = 0;
    while i < answers.len()
        invariant
            i <= answers@.len(),
            first_answer(answers@, 0) == first_answer(answers@, i as int),
        decreases answers@.len() - i,
    {
        if answers[i] {
            return ProbeStep::Found(i);
        }
        i += 1;
    }
    if answers.len() < n {
        ProbeStep::Probe(answers.len())
    } else {
        ProbeStep::Exhausted
    }
}

/// The candidate that answered first, if any.
pub open spec fn first_responding(candidates: Seq<ServerView>, answers: Seq<bool>) -> Option<ServerView> {
    match first_answer(answers, 0) {
        Some(i) => Some(candidates[i]),
        None => None,
    }
}

/// A copy of a server.
fn copy_server(c: &ServerConfig) -> (r: ServerConfig)
    ensures
        r@ == c@,
{
    ServerConfig { hostname: c.hostname.clone(), port: c.port, security: c.security }
}

/// The configuration from probing, given whether each IMAP and SMTP
/// candidate answered: the first IMAP candidate that answered (none means
/// the connection failed) and the first SMTP candidate that answered, else
/// the IMAP host on port 587 with STARTTLS (see [`probe_view`]).
pub fn probe_outcome(
    imap_candidates: &Vec<ServerConfig>,
    imap_answers: &Vec<bool>,
    smtp_candidates: &Vec<ServerConfig>,
    smtp_answers: &Vec<bool>,
) -> (r: Result<EmailDiscoveryConfig, AutodiscoveryError>)
    requires
        imap_answers@.len() <= imap_candidates@.len(),
        smtp_answers@.len() <= smtp_candidates@.len(),
    ensures
        result_view(r) == probe_view(
            first_responding(server_views(imap_candidates@), imap_answers@),
            first_responding(server_views(smtp_candidates@), smtp_answers@),
        ),
{
    proof {
        lemma_first_answer(imap_answers@, 0);
        lemma_first_answer(smtp_answers@, 0);
    }
    let imap = match probe_next(imap_answers, imap_answers.len()) {
        ProbeStep::Found(i) => Some(copy_server(&imap_candidates[i])),
        _ => None,
    };
    let smtp = match probe_next(smtp_answers, smtp_answers.len()) {
        ProbeStep::Found(i) => Some(copy_server(&smtp_candidates[i])),
        _ => None,
    };
    probe_result(imap, smtp)
}

/// Whether a server greeting is that of IMAP (`* OK` or `* PREAUTH`).
pub fn is_imap_greeting(response: &str) -> (r: bool)
    ensures
        r == (text::starts_with(response@, "* OK"@) || text::starts_with(response@, "* PREAUTH"@)),
{
    let rc = text::str_chars(response);
    text::starts_with_lit(rc.as_slice(), "* OK") || text::starts_with_lit(rc.as_slice(), "* PREAUTH")
}

/// Whether a server greeting is that of SMTP (`220`).
pub fn is_smtp_greeting(response: &str) -> (r: bool)
    ensures
        r == text::starts_with(response@, "220"@),
{
    let rc = text::str_chars(response);
    text::starts_with_lit(rc.as_slice(), "220")
}


// ── The discovery pipeline ──────────────────────────────────────────────────

/// The stages of discovery.
#[derive(Clone, Copy, Debug, PartialEq, Eq, Structural)]
pub enum DiscoveryStage {
    KnownProvider,
    Autoconfig,
    Autodiscover,
    Srv,
    Mx,
    Probing,
    Complete,
}

/// A progress report.
pub struct DiscoveryProgress {
    pub stage: DiscoveryStage,
    /// Percentage, 0 to 100.
    pub progress: u8,
    pub message: String,
}

/// What the pipeline does next.
pub enum DiscoveryAction {
    /// Report the progress, then run the stage.
    Run(DiscoveryStage, DiscoveryProgress),
    /// Report the progress and give the configuration.
    Finish(EmailDiscoveryConfig, DiscoveryProgress),
    /// Give the error.
    Fail(AutodiscoveryError),
}

/// The stage after a stage that found nothing.
pub open spec fn stage_after(s: DiscoveryStage) -> Option<DiscoveryStage> {
    match s {
        DiscoveryStage::KnownProvider => Some(DiscoveryStage::Autoconfig),
        DiscoveryStage::Autoconfig => Some(DiscoveryStage::Autodiscover),
        DiscoveryStage::Autodiscover => Some(DiscoveryStage::Srv),
        DiscoveryStage::Srv => Some(DiscoveryStage::Mx),
        DiscoveryStage::Mx => Some(DiscoveryStage::Probing),
        _ => None,
    }
}

/// The percentage reported when a stage starts (100 when complete).
pub open spec fn stage_percent(s: DiscoveryStage) -> u8 {
    match s {
        DiscoveryStage::KnownProvider => 10,
        DiscoveryStage::Autoconfig => 25,
        DiscoveryStage::Autodiscover => 40,
        DiscoveryStage::Srv => 55,
        DiscoveryStage::Mx => 70,
        DiscoveryStage::Probing => 85,
        DiscoveryStage::Complete => 100,
    }
}

/// The message reported when a stage starts.
pub open spec fn stage_message(s: DiscoveryStage) -> Seq<char> {
    match s {
        DiscoveryStage::KnownProvider => "Checking known email providers..."@,
        DiscoveryStage::Autoconfig => "Trying Mozilla Autoconfig..."@,
        DiscoveryStage::Autodiscover => "Trying Microsoft Autodiscover..."@,
        DiscoveryStage::Srv => "Querying DNS SRV records..."@,
        DiscoveryStage::Mx => "Analyzing MX records..."@,
        DiscoveryStage::Probing => "Probing common server configurations..."@,
        DiscoveryStage::Complete => Seq::empty(),
    }
}

/// The message reported when a stage found a configuration.
pub open spec fn found_message(s: DiscoveryStage, c: DiscoveryView, domain: Seq<char>) -> Seq<char> {
    match s {
        DiscoveryStage::KnownProvider => "Found configuration for "@ + match c.provider { Some(p) => p, None => domain },
        DiscoveryStage::Autoconfig => "Found configuration via Autoconfig"@,
        DiscoveryStage::Autodiscover => "Found configuration via Autodiscover"@,
        DiscoveryStage::Srv => "Found configuration via DNS SRV"@,
        DiscoveryStage::Mx => "Detected provider from MX records: "@ + match c.provider { Some(p) => p, None => "Unknown"@ },
        _ => "Found configuration via server probing"@,
    }
}

/// A progress report, as values.
pub open spec fn progress_view(p: DiscoveryProgress) -> (DiscoveryStage, u8, Seq<char>) {
    (p.stage, p.progress, p.message@)
}

/// The report at the start of a stage.
pub fn stage_progress(stage: DiscoveryStage) -> (r: DiscoveryProgress)
    requires
        stage != DiscoveryStage::Complete,
    ensures
        progress_view(r) == (stage, stage_percent(stage), stage_message(stage)),
{
    let message = match stage {
        DiscoveryStage::KnownProvider => "Checking known email providers...",
        DiscoveryStage::Autoconfig => "Trying Mozilla Autoconfig...",
        DiscoveryStage::Autodiscover => "Trying Microsoft Autodiscover...",
        DiscoveryStage::Srv => "Querying DNS SRV records...",
        DiscoveryStage::Mx => "Analyzing MX records...",
        _ => "Probing common server configurations...",
    };
    let progress: u8 = match stage {
        DiscoveryStage::KnownProvider => 10,
        DiscoveryStage::Autoconfig => 25,
        DiscoveryStage::Autodiscover => 40,
        DiscoveryStage::Srv => 55,
        DiscoveryStage::Mx => 70,
        _ => 85,
    };
    DiscoveryProgress { stage, progress, message: message.to_string() }
}

/// The report when a stage found a configuration.
pub fn found_progress(stage: DiscoveryStage, config: &EmailDiscoveryConfig, domain: &str) -> (r: DiscoveryProgress)
    ensures
        progress_view(r) == (DiscoveryStage::Complete, 100u8, found_message(stage, config@, domain@)),
{
    let message = match stage {
        DiscoveryStage::KnownProvider => {
            let who = match &config.provider {
                Some(p) => text::string_chars(p),
                None => text::str_chars(domain),
            };
            text::chars_to_string(text::lit_then("Found configuration for ", who.as_slice()).as_slice())
        },
        DiscoveryStage::Autoconfig => "Found configuration via Autoconfig".to_string(),
        DiscoveryStage::Autodiscover => "Found configuration via Autodiscover".to_string(),
        DiscoveryStage::Srv => "Found configuration via DNS SRV".to_string(),
        DiscoveryStage::Mx => {
            let who = match &config.provider {
                Some(p) => text::string_chars(p),
                None => text::str_chars("Unknown"),
            };
            text::chars_to_string(text::lit_then("Detected provider from MX records: ", who.as_slice()).as_slice())
        },
        _ => "Found configuration via server probing".to_string(),
    };
    DiscoveryProgress { stage: DiscoveryStage::Complete, progress: 100, message }
}

/// The address to discover for: trimmed and lowercased, with exactly one
/// `@` and text on both sides; the domain is the text after the `@`.
pub open spec fn discovery_target_view(email: Seq<char>) -> Result<(Seq<char>, Seq<char>), (int, Seq<char>)> {
    let e = text::lowercase(text::trim(email));
    let parts = text::split_char(e, '@');
    if parts.len() != 2 || parts[0].len() == 0 || parts[1].len() == 0 {
        Err((0, e))
    } else {
        Ok((e, parts[1]))
    }
}

/// The normalized address and its domain, or the invalid-address error.
pub fn discovery_target(email: &str) -> (r: Result<(String, String), AutodiscoveryError>)
    ensures
        match r {
            Ok((e, d)) => discovery_target_view(email@) == Ok::<(Seq<char>, Seq<char>), (int, Seq<char>)>((e@, d@)),
            Err(err) => discovery_target_view(email@) == Err::<(Seq<char>, Seq<char>), (int, Seq<char>)>(err.parts()),
        },
{
    let trimmed = text::trim_chars(text::str_chars(email).as_slice());
    let e = text::lower_chars(trimmed.as_slice());
    let parts = text::split_char_exec(e.as_slice(), '@');
    if parts.len() != 2 || parts[0].len() == 0 || parts[1].len() == 0 {
        return Err(AutodiscoveryError::InvalidEmail(text::chars_to_string(e.as_slice())));
    }
    Ok((text::chars_to_string(e.as_slice()), text::chars_to_string(parts[1].as_slice())))
}

/// What follows a stage, given the configuration it found, if any: a found
/// configuration finishes; otherwise the next stage runs, and after probing
/// nothing is found for the domain.
pub fn discovery_step(stage: DiscoveryStage, found: Option<EmailDiscoveryConfig>, domain: &str) -> (r: DiscoveryAction)
    requires
        stage != DiscoveryStage::Complete,
    ensures
        match found {
            Some(c) => r matches DiscoveryAction::Finish(rc, p) && rc@ == c@
                && progress_view(p) == (DiscoveryStage::Complete, 100u8, found_message(stage, c@, domain@)),
            None => match stage_after(stage) {
                Some(next) => r matches DiscoveryAction::Run(s, p) && s == next
                    && progress_view(p) == (next, stage_percent(next), stage_message(next))
                    && stage_percent(stage) < stage_percent(next),
                None => r matches DiscoveryAction::Fail(e) && e.parts() == (4int, domain@),
            },
        },
{
    match found {
        Some(c) => {
            let p = found_progress(stage, &c, domain);
            DiscoveryAction::Finish(c, p)
        },
        None => {
            let next = match stage {
                DiscoveryStage::KnownProvider => DiscoveryStage::Autoconfig,
                DiscoveryStage::Autoconfig => DiscoveryStage::Autodiscover,
                DiscoveryStage::Autodiscover => DiscoveryStage::Srv,
                DiscoveryStage::Srv => DiscoveryStage::Mx,
                DiscoveryStage::Mx => DiscoveryStage::Probing,
                _ => {
                    return DiscoveryAction::Fail(AutodiscoveryError::NotFound(domain.to_string()));
                },
            };
            DiscoveryAction::Run(next, stage_progress(next))
        },
    }
}

/// The first action of discovery for an address: run the known-provider
/// check.
pub fn discovery_begin() -> (r: DiscoveryAction)
    ensures
        r matches DiscoveryAction::Run(s, p) && s == DiscoveryStage::KnownProvider
            && progress_view(p) == (DiscoveryStage::KnownProvider, 10u8, stage_message(DiscoveryStage::KnownProvider)),
{
    DiscoveryAction::Run(DiscoveryStage::KnownProvider, stage_progress(DiscoveryStage::KnownProvider))
}

// ── Results for the front end ───────────────────────────────────────────────

/// A discovered configuration, flattened.
pub struct DiscoveryResult {
    pub provider: Option<String>,
    pub provider_id: Option<String>,
    pub imap_host: String,
    pub imap_port: u16,
    pub imap_tls: bool,
    pub smtp_host: String,
    pub smtp_port: u16,
    pub smtp_tls: bool,
    /// `password` or `app_password`.
    pub auth_method: String,
    pub requires_app_password: bool,
    /// `full_email`, `local_part`, or the custom form.
    pub username_hint: String,
    pub source: String,
}

impl DiscoveryResult {
    /// Flattens a configuration: a server uses TLS when its security is
    /// implicit TLS.
    pub fn from(config: EmailDiscoveryConfig) -> (r: DiscoveryResult)
        ensures
            text::opt_view(r.provider) == text::opt_view(config.provider),
            text::opt_view(r.provider_id) == text::opt_view(config.provider_id),
            r.imap_host@ == config.imap.hostname@,
            r.imap_port == config.imap.port,
            r.imap_tls == (config.imap.security == Security::Tls),
            r.smtp_host@ == config.smtp.hostname@,
            r.smtp_port == config.smtp.port,
            r.smtp_tls == (config.smtp.security == Security::Tls),
            r.auth_method@ == match config.auth_method {
                AuthMethod::Password => "password"@,
                AuthMethod::AppPassword => "app_password"@,
            },
            r.requires_app_password == config.requires_app_password,
            r.username_hint@ == match config.username_hint@ {
                HintView::FullEmail => "full_email"@,
                HintView::LocalPart => "local_part"@,
                HintView::Custom(s) => s,
            },
            r.source@ == config.source@,
    {
        let imap_tls = config.imap.security == Security::Tls;
        let smtp_tls = config.smtp.security == Security::Tls;
        DiscoveryResult {
            provider: config.provider,
            provider_id: config.provider_id,
            imap_host: config.imap.hostname,
            imap_port: config.imap.port,
            imap_tls,
            smtp_host: config.smtp.hostname,
            smtp_port: config.smtp.port,
            smtp_tls,
            auth_method: match config.auth_method {
                AuthMethod::Password => "password".to_string(),
                AuthMethod::AppPassword => "app_password".to_string(),
            },
            requires_app_password: config.requires_app_password,
            username_hint: match config.username_hint {
                UsernameHint::FullEmail => "full_email".to_string(),
                UsernameHint::LocalPart => "local_part".to_string(),
                UsernameHint::Custom(s) => s,
            },
            source: config.source,
        }
    }
}

} // verus!
