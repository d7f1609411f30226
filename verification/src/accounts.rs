//! Accounts: saving an account from the setup form (its configuration, the
//! password kept encrypted on the device, its aliases) and the logins of
//! its servers.
use vstd::prelude::*;
use crate::text;
use crate::config::{AccountConfig, AuthConfig, ImapConfig, PasswordSource, SmtpConfig};
use crate::crypto::{DeviceEncryption, EncryptionError};
use crate::mime::EddieError;

verus! {

broadcast use vstd::string::group_string_axioms;

/// An account as the setup form gives it.
pub struct SaveEmailAccountRequest {
    pub name: String,
    pub email: String,
    pub display_name: Option<String>,
    pub aliases: Option<String>,
    pub imap_host: String,
    pub imap_port: u16,
    pub imap_tls: bool,
    pub imap_tls_cert: Option<String>,
    pub smtp_host: String,
    pub smtp_port: u16,
    pub smtp_tls: bool,
    pub smtp_tls_cert: Option<String>,
    pub username: String,
    pub password: Option<String>,
}

/// The configuration of an account saved from the form: the default
/// account, both servers logging in as the form's user with the password
/// kept on the device.
pub open spec fn saved_account_ok(a: AccountConfig, q: SaveEmailAccountRequest) -> bool {
    &&& text::opt_view(a.name) == Some(q.name@)
    &&& a.default
    &&& a.email@ == q.email@
    &&& text::opt_view(a.display_name) == text::opt_view(q.display_name)
    &&& a.imap matches Some(i) && (i.host@ == q.imap_host@ && i.port == q.imap_port && i.tls == q.imap_tls
        && text::opt_view(i.tls_cert) == text::opt_view(q.imap_tls_cert)
        && (i.auth matches AuthConfig::AppPassword { user } && user@ == q.username@))
    &&& a.smtp matches Some(s) && (s.host@ == q.smtp_host@ && s.port == q.smtp_port && s.tls == q.smtp_tls
        && text::opt_view(s.tls_cert) == text::opt_view(q.smtp_tls_cert)
        && (s.auth matches AuthConfig::AppPassword { user } && user@ == q.username@))
}

/// The configuration of an account saved from the form.
pub fn account_from_request(q: &SaveEmailAccountRequest) -> (r: AccountConfig)
    ensures
        saved_account_ok(r, *q),
{
    AccountConfig {
        name: Some(q.name.clone()),
        default: true,
        email: q.email.clone(),
        display_name: text::copy_opt(&q.display_name),
        imap: Some(ImapConfig {
            host: q.imap_host.clone(),
            port: q.imap_port,
            tls: q.imap_tls,
            tls_cert: text::copy_opt(&q.imap_tls_cert),
            auth: AuthConfig::AppPassword { user: q.username.clone() },
        }),
        smtp: Some(SmtpConfig {
            host: q.smtp_host.clone(),
            port: q.smtp_port,
            tls: q.smtp_tls,
            tls_cert: text::copy_opt(&q.smtp_tls_cert),
            auth: AuthConfig::AppPassword { user: q.username.clone() },
        }),
    }
}

/// The encrypted password an account is saved with: a new non-empty
/// password encrypted under the device key; without one, the password
/// already stored for the account (`existing`: the stored configuration, if
/// any, with its encrypted password, if any); an account that is not stored
/// yet needs a password.
pub fn password_to_store(
    password: &Option<String>,
    existing: Option<Option<String>>,
    encryption: &Result<DeviceEncryption, EncryptionError>,
) -> (r: Result<Option<String>, EddieError>)
    ensures
        match password {
            Some(p) if p@.len() > 0 => match encryption {
                Err(e) => r matches Err(EddieError::Config(m)) && m@ == "Failed to initialize encryption: "@ + e.display(),
                Ok(enc) => (vstd::utf8::encode_utf8(p@).len() <= 0x1000000000 ==> r matches Ok(Some(_))) && match r {
                    Ok(Some(c)) => crate::crypto::opened(enc.key(), c@) == Some(p@),
                    Ok(None) => false,
                    Err(EddieError::Config(m)) => text::starts_with(m@, "Failed to encrypt password: "@),
                    Err(_) => false,
                },
            },
            _ => match existing {
                Some(stored) => r matches Ok(s) && text::opt_view(s) == text::opt_view(stored),
                None => r matches Err(EddieError::InvalidInput(m)) && m@ == "Password is required when creating a new account"@,
            },
        },
{
    match password {
        Some(p) if !p.as_str().is_empty() => match encryption {
            Err(e) => {
                let m = text::lit_then("Failed to initialize encryption: ", text::string_chars(&e.to_text()).as_slice());
                Err(EddieError::Config(text::chars_to_string(m.as_slice())))
            },
            Ok(enc) => match enc.encrypt(p.as_str()) {
                Ok(c) => Ok(Some(c)),
                Err(e) => {
                    let m = text::lit_then("Failed to encrypt password: ", text::string_chars(&e.to_text()).as_slice());
                    let ms = text::chars_to_string(m.as_slice());
                    assert(ms@.subrange(0, "Failed to encrypt password: "@.len() as int) =~= "Failed to encrypt password: "@);
                    Err(EddieError::Config(ms))
                },
            },
        },
        _ => match existing {
            Some(stored) => {
                let s = text::copy_opt(&stored);
                Ok(s)
            },
            None => Err(EddieError::InvalidInput("Password is required when creating a new account".to_string())),
        },
    }
}

// ── Aliases ─────────────────────────────────────────────────────────────────

/// Whether a character separates aliases.
pub open spec fn is_alias_separator(c: char) -> bool {
    c == ',' || c == ' '
}

/// The pieces of a text between alias separators (always at least one).
pub open spec fn alias_pieces(s: Seq<char>) -> Seq<Seq<char>>
    decreases s.len(),
{
    if s.len() == 0 {
        seq![Seq::<char>::empty()]
    } else {
        let rest = alias_pieces(s.drop_last());
        if is_alias_separator(s.last()) {
            rest.push(Seq::<char>::empty())
        } else {
            rest.update(rest.len() - 1, rest.last().push(s.last()))
        }
    }
}

proof fn lemma_alias_pieces_nonempty(s: Seq<char>)
    ensures
        alias_pieces(s).len() >= 1,
    decreases s.len(),
{
    if s.len() > 0 {
        lemma_alias_pieces_nonempty(s.drop_last());
    }
}

/// The aliases a list names: its pieces between commas and spaces,
/// trimmed, the empty ones left out.
pub open spec fn alias_names(s: Seq<char>) -> Seq<Seq<char>> {
    text::nonempty_parts(alias_pieces(s).map_values(|p: Seq<char>| text::trim(p)))
}

fn alias_pieces_exec(s: &[char]) -> (r: Vec<Vec<char>>)
    ensures
        text::seqs_of(r@) == alias_pieces(s@),
{
    let mut done: Vec<Vec<char>> = Vec::new();
    let mut cur: Vec<char> = Vec::new();
    let mut i: usize = 0;
    assert(s@.take(0) =~= Seq::<char>::empty());
    assert(text::seqs_of(done@) =~= Seq::<Seq<char>>::empty());
    while i < s.len()
        invariant
            i <= s@.len(),
            text::seqs_of(done@).push(cur@) == alias_pieces(s@.take(i as int)),
        decreases s@.len() - i,
    {
        let ghost before = s@.take(i as int);
        let ghost old_done = done@;
        let ghost old_cur = cur@;
        assert(s@.take(i + 1).drop_last() =~= before);
        assert(s@.take(i + 1).last() == s@[i as int]);
        proof { lemma_alias_pieces_nonempty(before); }
        if s[i] == ',' || s[i] == ' ' {
            let piece = cur;
            done.push(piece);
            cur = Vec::new();
            proof { text::lemma_seqs_of_push(old_done, piece); }
            assert(text::seqs_of(done@).push(cur@) =~= alias_pieces(before).push(Seq::<char>::empty()));
        } else {
            cur.push(s[i]);
            let ghost sb = alias_pieces(before);
            assert(sb.update(sb.len() - 1, sb.last().push(s@[i as int])) =~= text::seqs_of(done@).push(cur@));
        }
        i += 1;
    }
    assert(s@.take(s@.len() as int) =~= s@);
    let ghost d = done@;
    done.push(cur);
    proof { text::lemma_seqs_of_push(d, cur); }
    done
}

/// The aliases a list names (see [`alias_names`]).
pub fn split_aliases(aliases: &str) -> (r: Vec<String>)
    ensures
        text::string_views(r@) == alias_names(aliases@),
{
    let pieces = alias_pieces_exec(text::str_chars(aliases).as_slice());
    let ghost pv = text::seqs_of(pieces@);
    let mut trimmed: Vec<Vec<char>> = Vec::new();
    let mut i: usize = 0;
    while i < pieces.len()
        invariant
            i <= pieces@.len(),
            pv == text::seqs_of(pieces@),
            text::seqs_of(trimmed@) == pv.take(i as int).map_values(|p: Seq<char>| text::trim(p)),
        decreases pieces@.len() - i,
    {
        let t = text::trim_chars(pieces[i].as_slice());
        let ghost t0 = trimmed@;
        trimmed.push(t);
        proof { text::lemma_seqs_of_push(t0, t); }
        assert(pv.take(i + 1) =~= pv.take(i as int).push(pv[i as int]));
        assert(text::seqs_of(trimmed@) =~= pv.take(i + 1).map_values(|p: Seq<char>| text::trim(p)));
        i += 1;
    }
    assert(pv.take(pieces@.len() as int) =~= pv);
    let kept = text::nonempty_exec(&trimmed);
    let ghost kv = text::seqs_of(kept@);
    let mut r: Vec<String> = Vec::new();
    let mut k: usize = 0;
    while k < kept.len()
        invariant
            k <= kept@.len(),
            kv == text::seqs_of(kept@),
            text::string_views(r@) == kv.take(k as int),
        decreases kept@.len() - k,
    {
        let ghost r0 = text::string_views(r@);
        let s = text::chars_to_string(kept[k].as_slice());
        r.push(s);
        assert(text::string_views(r@) =~= r0.push(kv[k as int]));
        assert(kv.take(k + 1) =~= kv.take(k as int).push(kv[k as int]));
        k += 1;
    }
    assert(kv.take(kept@.len() as int) =~= kv);
    r
}

// ── Logins ──────────────────────────────────────────────────────────────────

/// The password a source gives: the password itself, or the output of the
/// password command, trimmed (`command` is what running it gave: whether
/// it succeeded with its output, or why it could not run).
pub fn resolve_password(source: &PasswordSource, command: Option<Result<(bool, Vec<u8>), String>>) -> (r: Result<String, EddieError>)
    requires
        source is Command ==> command is Some,
    ensures
        match source {
            PasswordSource::Raw(p) => r matches Ok(s) && s@ == p@,
            PasswordSource::Command { .. } => match command {
                Some(Err(e)) => r matches Err(EddieError::Config(m)) && m@ == "Failed to run password command: "@ + e@,
                Some(Ok((false, _))) => r matches Err(EddieError::Config(m)) && m@ == "Password command failed"@,
                Some(Ok((true, out))) => r matches Ok(s) && s@ == text::trim(text::utf8_lossy(out@)),
                None => false,
            },
        },
{
    match source {
        PasswordSource::Raw(p) => Ok(p.clone()),
        PasswordSource::Command { .. } => match command {
            Some(Err(e)) => {
                let m = text::lit_then("Failed to run password command: ", text::string_chars(&e).as_slice());
                Err(EddieError::Config(text::chars_to_string(m.as_slice())))
            },
            Some(Ok((ok, out))) => {
                if !ok {
                    Err(EddieError::Config("Password command failed".to_string()))
                } else {
                    let s = text::from_utf8_lossy(out.as_slice());
                    let t = text::trim_chars(text::string_chars(&s).as_slice());
                    Ok(text::chars_to_string(t.as_slice()))
                }
            },
            None => Err(EddieError::Config("Password command failed".to_string())),
        },
    }
}

/// The IMAP login of a password account: its user and password; an empty
/// password is refused.
pub fn password_login(user: &str, password: String) -> (r: Result<(String, String), EddieError>)
    ensures
        password@.len() == 0 ==> (r matches Err(EddieError::Auth(m)) && m@ == "Empty password returned for user: "@ + user@),
        password@.len() > 0 ==> (r matches Ok((u, p)) && u@ == user@ && p@ == password@),
{
    if password.as_str().is_empty() {
        let m = text::lit_then("Empty password returned for user: ", text::str_chars(user).as_slice());
        Err(EddieError::Auth(text::chars_to_string(m.as_slice())))
    } else {
        Ok((user.to_string(), password))
    }
}

/// Text of three pieces.
fn text3(a: &str, b: &str, c: &str) -> (r: String)
    ensures
        r@ == a@ + b@ + c@,
{
    let mut v = text::str_chars(a);
    text::append_chars(&mut v, text::str_chars(b).as_slice());
    text::append_chars(&mut v, text::str_chars(c).as_slice());
    text::chars_to_string(v.as_slice())
}

/// The password of an app-password account, kept encrypted on the device
/// (`stored`: the account's stored configuration, if any, with its
/// encrypted password, if any; `encryption`: the device's encryption or why
/// it could not be set up). For IMAP an empty password is refused and a
/// failed decryption reads as a request to re-enter the password; for SMTP
/// the failure is passed on.
pub fn app_password(
    email: &str,
    stored: Option<Option<String>>,
    encryption: &Result<DeviceEncryption, EncryptionError>,
    for_imap: bool,
) -> (r: Result<String, EddieError>)
    ensures
        match stored {
            None => r matches Err(EddieError::Auth(m)) && m@ == "No account configuration found for "@ + email@,
            Some(None) => r matches Err(EddieError::Auth(m)) && m@ == "No password stored for "@ + email@ + ". Please re-enter your password."@,
            Some(Some(c)) => match encryption {
                Err(e) => r matches Err(EddieError::Auth(m)) && m@ == "Failed to initialize encryption: "@ + e.display(),
                Ok(enc) => match crate::crypto::opened(enc.key(), c@) {
                    None => if for_imap {
                        r matches Err(EddieError::Auth(m)) && m@ == "Failed to decrypt password for "@ + email@ + ". You may need to re-enter your password."@
                    } else {
                        r matches Err(EddieError::Auth(m)) && text::starts_with(m@, "Failed to decrypt password for "@ + email@ + ": "@)
                    },
                    Some(p) => if for_imap && p.len() == 0 {
                        r matches Err(EddieError::Auth(m)) && m@ == "Empty password decrypted for "@ + email@ + ". Please re-enter your password."@
                    } else {
                        r matches Ok(s) && s@ == p
                    },
                },
            },
        },
{
    match stored {
        None => {
            let m = text::lit_then("No account configuration found for ", text::str_chars(email).as_slice());
            Err(EddieError::Auth(text::chars_to_string(m.as_slice())))
        },
        Some(None) => Err(EddieError::Auth(text3("No password stored for ", email, ". Please re-enter your password."))),
        Some(Some(c)) => match encryption {
            Err(e) => {
                let m = text::lit_then("Failed to initialize encryption: ", text::string_chars(&e.to_text()).as_slice());
                Err(EddieError::Auth(text::chars_to_string(m.as_slice())))
            },
            Ok(enc) => match enc.decrypt(c.as_str()) {
                Err(e) => {
                    if for_imap {
                        Err(EddieError::Auth(text3("Failed to decrypt password for ", email, ". You may need to re-enter your password.")))
                    } else {
                        let head = text3("Failed to decrypt password for ", email, ": ");
                        let mut m = text::string_chars(&head);
                        text::append_chars(&mut m, text::string_chars(&e.to_text()).as_slice());
                        let ms = text::chars_to_string(m.as_slice());
                        assert(ms@.subrange(0, head@.len() as int) =~= head@);
                        Err(EddieError::Auth(ms))
                    }
                },
                Ok(p) => {
                    if for_imap && p.as_str().is_empty() {
                        Err(EddieError::Auth(text3("Empty password decrypted for ", email, ". Please re-enter your password.")))
                    } else {
                        Ok(p)
                    }
                },
            },
        },
    }
}

// ── Updates ─────────────────────────────────────────────────────────────────

/// The settings of an account to change; those left `None` stay.
pub struct AccountUpdate {
    pub display_name: Option<String>,
    pub password: Option<String>,
    pub imap_host: Option<String>,
    pub imap_port: Option<u16>,
    pub imap_tls: Option<bool>,
    pub smtp_host: Option<String>,
    pub smtp_port: Option<u16>,
    pub smtp_tls: Option<bool>,
}

/// `acc` with the assignment of column `name` added when it is set.
pub open spec fn with_column(acc: Seq<Seq<char>>, set: bool, name: Seq<char>) -> Seq<Seq<char>> {
    if set {
        acc.push(name + " = ?"@)
    } else {
        acc
    }
}

/// The assignments an update makes (`column = ?`), in the order of the
/// settings: display name, password, IMAP host, port and TLS, SMTP host,
/// port and TLS; only those that are set.
pub open spec fn update_assignments(u: AccountUpdate) -> Seq<Seq<char>> {
    let a0 = with_column(Seq::empty(), u.display_name is Some, "display_name"@);
    let a1 = with_column(a0, u.password is Some, "password"@);
    let a2 = with_column(a1, u.imap_host is Some, "imap_host"@);
    let a3 = with_column(a2, u.imap_port is Some, "imap_port"@);
    let a4 = with_column(a3, u.imap_tls is Some, "imap_tls"@);
    let a5 = with_column(a4, u.smtp_host is Some, "smtp_host"@);
    let a6 = with_column(a5, u.smtp_port is Some, "smtp_port"@);
    with_column(a6, u.smtp_tls is Some, "smtp_tls"@)
}

fn push_column(cols: &mut Vec<Vec<char>>, set: bool, name: &str)
    ensures
        text::seqs_of(final(cols)@) == with_column(text::seqs_of(old(cols)@), set, name@),
{
    if set {
        let ghost c0 = cols@;
        let mut v = text::str_chars(name);
        text::append_chars(&mut v, text::str_chars(" = ?").as_slice());
        cols.push(v);
        proof { text::lemma_seqs_of_push(c0, v); }
    }
}

/// The statement that applies an update, with one parameter per setting
/// that changes (in the order of the settings) and the account's
/// identifier last; `None` when nothing changes.
pub fn update_statement(u: &AccountUpdate) -> (r: Option<String>)
    ensures
        update_assignments(*u).len() == 0 ==> r is None,
        update_assignments(*u).len() > 0 ==> (r matches Some(s) && s@ == "UPDATE accounts SET "@
            + text::join(update_assignments(*u), ", "@) + " WHERE id = ?"@),
{
    let mut cols: Vec<Vec<char>> = Vec::new();
    assert(text::seqs_of(cols@) =~= Seq::<Seq<char>>::empty());
    push_column(&mut cols, u.display_name.is_some(), "display_name");
    push_column(&mut cols, u.password.is_some(), "password");
    push_column(&mut cols, u.imap_host.is_some(), "imap_host");
    push_column(&mut cols, u.imap_port.is_some(), "imap_port");
    push_column(&mut cols, u.imap_tls.is_some(), "imap_tls");
    push_column(&mut cols, u.smtp_host.is_some(), "smtp_host");
    push_column(&mut cols, u.smtp_port.is_some(), "smtp_port");
    push_column(&mut cols, u.smtp_tls.is_some(), "smtp_tls");
    if cols.len() == 0 {
        return None;
    }
    let joined = text::join_exec(&cols, text::str_chars(", ").as_slice());
    let mut out = text::lit_then("UPDATE accounts SET ", joined.as_slice());
    text::append_chars(&mut out, text::str_chars(" WHERE id = ?").as_slice());
    Some(text::chars_to_string(out.as_slice()))
}

/// The entries of `s` other than `x`, in order.
pub open spec fn without(s: Seq<Seq<char>>, x: Seq<char>) -> Seq<Seq<char>>
    decreases s.len(),
{
    if s.len() == 0 {
        Seq::empty()
    } else if s.last() == x {
        without(s.drop_last(), x)
    } else {
        without(s.drop_last(), x).push(s.last())
    }
}

fn without_exec(v: &Vec<String>, x: &str) -> (r: Vec<String>)
    ensures
        text::string_views(r@) == without(text::string_views(v@), x@),
{
    let ghost sv = text::string_views(v@);
    let xc = text::str_chars(x);
    let mut r: Vec<String> = Vec::new();
    let mut i: usize = 0;
    while i < v.len()
        invariant
            i <= v@.len(),
            sv == text::string_views(v@),
            xc@ == x@,
            text::string_views(r@) == without(sv.take(i as int), x@),
        decreases v@.len() - i,
    {
        assert(sv.take(i + 1).drop_last() =~= sv.take(i as int));
        assert(sv.take(i + 1).last() == v@[i as int]@);
        if !text::chars_eq(text::string_chars(&v[i]).as_slice(), xc.as_slice()) {
            let ghost r0 = text::string_views(r@);
            let c = v[i].clone();
            r.push(c);
            assert(text::string_views(r@) =~= r0.push(v@[i as int]@));
        }
        i += 1;
    }
    assert(sv.take(v@.len() as int) =~= sv);
    r
}

/// How the aliases of an account change when a new list is given: every
/// stored address but the account's own is removed, and every alias the
/// list names but the account's own address is added.
pub fn alias_changes(existing: &Vec<String>, account_email: &str, aliases: &str) -> (r: (Vec<String>, Vec<String>))
    ensures
        text::string_views(r.0@) == without(text::string_views(existing@), account_email@),
        text::string_views(r.1@) == without(alias_names(aliases@), account_email@),
{
    let removed = without_exec(existing, account_email);
    let named = split_aliases(aliases);
    let added = without_exec(&named, account_email);
    (removed, added)
}

} // verus!
