//! What the mail backend decides on what the server returns: folders as
//! listed, the Sent folder, the kind of a connection failure, addresses as
//! shown, and the Message-ID of a raw message.
use vstd::prelude::*;
use crate::text;
use crate::mime::EddieError;

verus! {

broadcast use vstd::string::group_string_axioms;

/// A folder as listed to the user.
pub struct Folder {
    pub name: String,
    pub desc: Option<String>,
}

/// A folder as listed: its name, and its description unless empty.
pub fn folder_listing(name: &str, desc: &str) -> (r: Folder)
    ensures
        r.name@ == name@,
        desc@.len() == 0 ==> r.desc is None,
        desc@.len() > 0 ==> (r.desc matches Some(d) && d@ == desc@),
{
    Folder {
        name: name.to_string(),
        desc: if desc.is_empty() { None } else { Some(desc.to_string()) },
    }
}

/// Whether a folder name (in any case) names sent mail, in English,
/// French, German, Spanish or Italian (`sent`, `sent mail` and `sent
/// messages` all contain `sent`).
pub open spec fn is_sent_name(name: Seq<char>) -> bool {
    let l = text::lowercase(name);
    ||| text::contains(l, "sent"@)
    ||| text::contains(l, "envoy"@)
    ||| text::contains(l, "gesendet"@)
    ||| text::contains(l, "enviados"@)
    ||| text::contains(l, "inviati"@)
}

/// Whether a folder name names sent mail (see [`is_sent_name`]).
pub fn is_sent_folder_name(name: &str) -> (r: bool)
    ensures
        r == is_sent_name(name@),
{
    let l = text::string_chars(&text::to_lowercase(name));
    text::contains_lit(l.as_slice(), "sent")
        || text::contains_lit(l.as_slice(), "envoy")
        || text::contains_lit(l.as_slice(), "gesendet")
        || text::contains_lit(l.as_slice(), "enviados")
        || text::contains_lit(l.as_slice(), "inviati")
}

/// The first folder whose name names sent mail, if any.
pub fn find_sent_folder(folders: &[Folder]) -> (r: Option<String>)
    ensures
        match r {
            Some(n) => exists|i: int| 0 <= i < folders@.len() && n@ == folders@[i].name@
                && is_sent_name(folders@[i].name@)
                && forall|k: int| 0 <= k < i ==> !is_sent_name(#[trigger] folders@[k].name@),
            None => forall|k: int| 0 <= k < folders@.len() ==> !is_sent_name(#[trigger] folders@[k].name@),
        },
{
    let mut i: usize = 0;
    while i < folders.len()
        invariant
            i <= folders@.len(),
            forall|k: int| 0 <= k < i ==> !is_sent_name(#[trigger] folders@[k].name@),
        decreases folders@.len() - i,
    {
        if is_sent_folder_name(folders[i].name.as_str()) {
            return Some(folders[i].name.clone());
        }
        i += 1;
    }
    None
}

// ── Connection failures ─────────────────────────────────────────────────────

/// Text of two pieces.
fn text2(a: &str, b: &str) -> (r: String)
    ensures
        r@ == a@ + b@,
{
    text::chars_to_string(text::lit_then(a, text::str_chars(b).as_slice()).as_slice())
}

/// The kind of failure to reach the server while listing folders, from the
/// error's text in lowercase `lower`: a timeout, a refused or reset
/// connection, a rejected login, a name that does not resolve, or a TLS
/// failure; anything else is an error of the backend. The message is kept,
/// after a prefix naming the kind.
pub open spec fn connect_failure(lower: Seq<char>, message: Seq<char>) -> (int, Seq<char>) {
    if text::contains(lower, "timeout"@) || text::contains(lower, "timed out"@) {
        (0, "Connection timeout: "@ + message)
    } else if text::contains(lower, "connection"@) || text::contains(lower, "refused"@) || text::contains(lower, "reset"@) {
        (0, "Connection error: "@ + message)
    } else if text::contains(lower, "auth"@) || text::contains(lower, "login"@) || text::contains(lower, "password"@) {
        (1, "Authentication error: "@ + message)
    } else if text::contains(lower, "dns"@) || text::contains(lower, "resolve"@) {
        (0, "DNS resolution error: "@ + message)
    } else if text::contains(lower, "tls"@) || text::contains(lower, "ssl"@) || text::contains(lower, "certificate"@) {
        (0, "TLS/SSL error: "@ + message)
    } else {
        (2, message)
    }
}

/// The kind of an error (0 network, 1 authentication, 2 backend, 3 other)
/// and its message.
pub open spec fn error_kind(e: EddieError) -> (int, Seq<char>) {
    match e {
        EddieError::Network(m) => (0, m@),
        EddieError::Auth(m) => (1, m@),
        EddieError::Backend(m) => (2, m@),
        _ => (3, Seq::empty()),
    }
}

/// The error for a failure to reach the server while listing folders (see
/// [`connect_failure`]); `error_text` is the failure's own text, `message`
/// the message reported.
pub fn connect_error(error_text: &str, message: &str) -> (r: EddieError)
    ensures
        error_kind(r) == connect_failure(text::lowercase(error_text@), message@),
{
    let lower = text::string_chars(&text::to_lowercase(error_text));
    let l = lower.as_slice();
    if text::contains_lit(l, "timeout") || text::contains_lit(l, "timed out") {
        EddieError::Network(text2("Connection timeout: ", message))
    } else if text::contains_lit(l, "connection") || text::contains_lit(l, "refused") || text::contains_lit(l, "reset") {
        EddieError::Network(text2("Connection error: ", message))
    } else if text::contains_lit(l, "auth") || text::contains_lit(l, "login") || text::contains_lit(l, "password") {
        EddieError::Auth(text2("Authentication error: ", message))
    } else if text::contains_lit(l, "dns") || text::contains_lit(l, "resolve") {
        EddieError::Network(text2("DNS resolution error: ", message))
    } else if text::contains_lit(l, "tls") || text::contains_lit(l, "ssl") || text::contains_lit(l, "certificate") {
        EddieError::Network(text2("TLS/SSL error: ", message))
    } else {
        EddieError::Backend(message.to_string())
    }
}

/// The kind of failure to reach the server while listing envelopes: a
/// timeout, a connection failure, or else an error of the backend.
pub open spec fn listing_failure(lower: Seq<char>, message: Seq<char>) -> (int, Seq<char>) {
    if text::contains(lower, "timeout"@) || text::contains(lower, "timed out"@) {
        (0, "Connection timeout: "@ + message)
    } else if text::contains(lower, "connection"@) {
        (0, "Connection error: "@ + message)
    } else {
        (2, message)
    }
}

/// The error for a failure to reach the server while listing envelopes
/// (see [`listing_failure`]).
pub fn listing_error(error_text: &str, message: &str) -> (r: EddieError)
    ensures
        error_kind(r) == listing_failure(text::lowercase(error_text@), message@),
{
    let lower = text::string_chars(&text::to_lowercase(error_text));
    let l = lower.as_slice();
    if text::contains_lit(l, "timeout") || text::contains_lit(l, "timed out") {
        EddieError::Network(text2("Connection timeout: ", message))
    } else if text::contains_lit(l, "connection") {
        EddieError::Network(text2("Connection error: ", message))
    } else {
        EddieError::Backend(message.to_string())
    }
}

// ── Messages ────────────────────────────────────────────────────────────────

/// An address as shown: `Name <address>` when it has a name, else the
/// address (an address that is missing reads as empty).
pub open spec fn shown_address(name: Option<Seq<char>>, address: Option<Seq<char>>) -> Seq<char> {
    let a = match address {
        Some(x) => x,
        None => Seq::empty(),
    };
    match name {
        Some(n) => n + " <"@ + a + ">"@,
        None => a,
    }
}

/// An address as shown (see [`shown_address`]).
pub fn format_address(name: Option<&str>, address: Option<&str>) -> (r: String)
    ensures
        r@ == shown_address(
            match name { Some(n) => Some(n@), None => None },
            match address { Some(a) => Some(a@), None => None },
        ),
{
    let a = match address {
        Some(x) => text::str_chars(x),
        None => Vec::new(),
    };
    match name {
        Some(n) => {
            let mut v = text::lit_then(n, text::str_chars(" <").as_slice());
            text::append_chars(&mut v, a.as_slice());
            text::append_chars(&mut v, text::str_chars(">").as_slice());
            text::chars_to_string(v.as_slice())
        },
        None => text::chars_to_string(a.as_slice()),
    }
}

/// The Message-ID header of a raw message: among the lines of its header
/// block (up to the first empty line), the first that starts with
/// `message-id:` in any case, with the eleven characters of the name and
/// colon removed and the rest trimmed (a line whose lowercase form is
/// longer than itself and has fewer characters gives an empty value).
pub open spec fn message_id_in(lines: Seq<Seq<char>>) -> Option<Seq<char>>
    decreases lines.len(),
{
    if lines.len() == 0 || lines[0].len() == 0 {
        None
    } else if text::starts_with(text::lowercase(lines[0]), "message-id:"@) {
        Some(if lines[0].len() >= 11 { text::trim(lines[0].skip(11)) } else { Seq::empty() })
    } else {
        message_id_in(lines.drop_first())
    }
}

/// The Message-ID header of a raw message, read as UTF-8 with invalid
/// sequences replaced (see [`message_id_in`]).
pub fn extract_message_id(raw_message: &[u8]) -> (r: Option<String>)
    ensures
        match r {
            Some(s) => message_id_in(text::lines(text::utf8_lossy(raw_message@))) == Some(s@),
            None => message_id_in(text::lines(text::utf8_lossy(raw_message@))) is None,
        },
{
    let s = text::from_utf8_lossy(raw_message);
    let lines = text::lines_exec(text::string_chars(&s).as_slice());
    let ghost lv = text::seqs_of(lines@);
    let mut i: usize = 0;
    assert(lv.skip(0) =~= lv);
    while i < lines.len()
        invariant
            i <= lines@.len(),
            lv == text::seqs_of(lines@),
            lv == text::lines(text::utf8_lossy(raw_message@)),
            message_id_in(lv) == message_id_in(lv.skip(i as int)),
        decreases lines@.len() - i,
    {
        let line: &Vec<char> = &lines[i];
        assert(lv.skip(i as int)[0] == line@);
        assert(lv.skip(i as int).drop_first() =~= lv.skip(i + 1));
        if line.len() == 0 {
            return None;
        }
        let lower = text::lower_chars(line.as_slice());
        if text::starts_with_lit(lower.as_slice(), "message-id:") {
            proof { reveal_strlit("message-id:"); }
            let n: usize = line.len();
            if n < 11 {
                return Some(String::new());
            }
            let rest = text::slice_to_vec(line.as_slice(), 11, n);
            assert(rest@ =~= line@.skip(11));
            let v = text::trim_chars(rest.as_slice());
            return Some(text::chars_to_string(v.as_slice()));
        }
        i += 1;
    }
    None
}

/// An attachment of a message: its file name, media type and size.
pub struct Attachment {
    pub filename: Option<String>,
    pub mime_type: String,
    pub size: usize,
}

/// A message's envelope as shown to the user.
pub struct MessageEnvelope {
    pub id: String,
    pub message_id: Option<String>,
    pub in_reply_to: Option<String>,
    pub from: String,
    pub to: Vec<String>,
    pub cc: Vec<String>,
    pub subject: String,
    pub date: String,
    pub flags: Vec<String>,
    pub has_attachment: bool,
}

/// A message as shown to the user.
pub struct ChatMessage {
    pub id: String,
    pub envelope: MessageEnvelope,
    pub headers: Vec<(String, String)>,
    pub text_body: Option<String>,
    pub html_body: Option<String>,
    pub attachments: Vec<Attachment>,
}

/// An address of a parsed message: its display name and address, each
/// possibly missing.
pub struct ParsedAddress {
    pub name: Option<String>,
    pub address: Option<String>,
}

/// What parsing a fetched message gives.
pub struct ParsedMessage {
    pub from: Vec<ParsedAddress>,
    pub to: Vec<ParsedAddress>,
    pub cc: Vec<ParsedAddress>,
    pub subject: Option<String>,
    /// The date in RFC 3339 form.
    pub date: Option<String>,
    pub message_id: Option<String>,
    pub in_reply_to: Option<String>,
    pub headers: Vec<(String, String)>,
    pub text_body: Option<String>,
    pub html_body: Option<String>,
}

/// An address as shown, from a parsed address.
pub open spec fn shown(a: ParsedAddress) -> Seq<char> {
    shown_address(text::opt_view(a.name), text::opt_view(a.address))
}

/// The addresses as shown.
pub open spec fn shown_all(v: Seq<ParsedAddress>) -> Seq<Seq<char>> {
    v.map_values(|a: ParsedAddress| shown(a))
}

fn show(a: &ParsedAddress) -> (r: String)
    ensures
        r@ == shown(*a),
{
    let n = match &a.name {
        Some(x) => Some(x.as_str()),
        None => None,
    };
    let d = match &a.address {
        Some(x) => Some(x.as_str()),
        None => None,
    };
    format_address(n, d)
}

fn show_all(v: &Vec<ParsedAddress>) -> (r: Vec<String>)
    ensures
        text::string_views(r@) == shown_all(v@),
{
    let mut r: Vec<String> = Vec::new();
    let mut i: usize = 0;
    while i < v.len()
        invariant
            i <= v@.len(),
            text::string_views(r@) == shown_all(v@.take(i as int)),
        decreases v@.len() - i,
    {
        let ghost r0 = text::string_views(r@);
        let s = show(&v[i]);
        r.push(s);
        assert(text::string_views(r@) =~= r0.push(shown(v@[i as int])));
        assert(shown_all(v@.take(i + 1)) =~= shown_all(v@.take(i as int)).push(shown(v@[i as int])));
        i += 1;
    }
    assert(v@.take(v@.len() as int) =~= v@);
    r
}

/// The text of an optional text, empty when missing.
pub open spec fn or_empty(o: Option<Seq<char>>) -> Seq<char> {
    match o {
        Some(s) => s,
        None => Seq::empty(),
    }
}

/// `r` is a fetched message as shown: its identifier, the first sender as
/// shown (empty without one), the recipients as shown, the subject and date
/// (empty when missing), no flags, and an attachment mark when it has
/// attachments.
pub open spec fn chat_message_ok(r: ChatMessage, id: Seq<char>, parsed: ParsedMessage, attachments: Seq<Attachment>) -> bool {
    &&& r.id@ == id
    &&& r.envelope.id@ == id
    &&& text::opt_view(r.envelope.message_id) == text::opt_view(parsed.message_id)
    &&& text::opt_view(r.envelope.in_reply_to) == text::opt_view(parsed.in_reply_to)
    &&& r.envelope.from@ == if parsed.from@.len() > 0 { shown(parsed.from@[0]) } else { Seq::empty() }
    &&& text::string_views(r.envelope.to@) == shown_all(parsed.to@)
    &&& text::string_views(r.envelope.cc@) == shown_all(parsed.cc@)
    &&& r.envelope.subject@ == or_empty(text::opt_view(parsed.subject))
    &&& r.envelope.date@ == or_empty(text::opt_view(parsed.date))
    &&& r.envelope.flags@.len() == 0
    &&& r.envelope.has_attachment == (attachments.len() > 0)
    &&& r.headers@ == parsed.headers@
    &&& r.text_body == parsed.text_body
    &&& r.html_body == parsed.html_body
    &&& r.attachments@ == attachments
}

/// A fetched message as shown (see [`chat_message_ok`]).
pub fn chat_message(id: &str, parsed: ParsedMessage, attachments: Vec<Attachment>) -> (r: ChatMessage)
    ensures
        chat_message_ok(r, id@, parsed, attachments@),
{
    let from = if parsed.from.len() > 0 { show(&parsed.from[0]) } else { String::new() };
    let to = show_all(&parsed.to);
    let cc = show_all(&parsed.cc);
    let subject = match &parsed.subject {
        Some(s) => s.clone(),
        None => String::new(),
    };
    let date = match &parsed.date {
        Some(s) => s.clone(),
        None => String::new(),
    };
    let has_attachment = attachments.len() > 0;
    ChatMessage {
        id: id.to_string(),
        envelope: MessageEnvelope {
            id: id.to_string(),
            message_id: parsed.message_id,
            in_reply_to: parsed.in_reply_to,
            from,
            to,
            cc,
            subject,
            date,
            flags: Vec::new(),
            has_attachment,
        },
        headers: parsed.headers,
        text_body: parsed.text_body,
        html_body: parsed.html_body,
        attachments,
    }
}

/// An envelope as listed: the Message-ID unless empty, the recipients as
/// one text each for `To` and the `Cc` addresses one by one.
pub fn listed_envelope(
    id: String,
    message_id: &str,
    in_reply_to: Option<String>,
    from: String,
    to: String,
    cc: Vec<String>,
    subject: String,
    date: String,
    flags: Vec<String>,
    has_attachment: bool,
) -> (r: MessageEnvelope)
    ensures
        r.id == id,
        message_id@.len() == 0 ==> r.message_id is None,
        message_id@.len() > 0 ==> (r.message_id matches Some(m) && m@ == message_id@),
        r.in_reply_to == in_reply_to,
        r.from == from,
        r.to@ == seq![to],
        r.cc == cc,
        r.subject == subject,
        r.date == date,
        r.flags == flags,
        r.has_attachment == has_attachment,
{
    let mut tos: Vec<String> = Vec::new();
    tos.push(to);
    MessageEnvelope {
        id,
        message_id: if message_id.is_empty() { None } else { Some(message_id.to_string()) },
        in_reply_to,
        from,
        to: tos,
        cc,
        subject,
        date,
        flags,
        has_attachment,
    }
}

/// The message a fetch of `id` gives: the first message fetched, as shown
/// (`first` holds it parsed, with its attachments), or, when the fetch gave
/// none, the error that the message was not found.
pub fn fetched_message(id: &str, first: Option<(ParsedMessage, Vec<Attachment>)>) -> (r: Result<ChatMessage, EddieError>)
    ensures
        match first {
            None => r matches Err(EddieError::MessageNotFound(m)) && m@ == id@,
            Some((p, a)) => r matches Ok(c) && chat_message_ok(c, id@, p, a@),
        },
{
    match first {
        None => Err(EddieError::MessageNotFound(id.to_string())),
        Some((parsed, attachments)) => Ok(chat_message(id, parsed, attachments)),
    }
}

} // verus!
