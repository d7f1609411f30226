//! Message envelopes: what a FETCH response says of a message, and the
//! message rows built from envelopes.
use vstd::prelude::*;
use crate::text;
use crate::mime;
use crate::participants;
use crate::digest;
use crate::sorted_set;
use crate::classifier;

verus! {

broadcast use vstd::string::group_string_axioms;

// ── FETCH responses ─────────────────────────────────────────────────────────

/// An address of an envelope, as the server sends it.
pub struct RawAddress {
    pub name: Option<Vec<u8>>,
    pub mailbox: Option<Vec<u8>>,
    pub host: Option<Vec<u8>>,
}

/// The envelope of a FETCH response, as the server sends it.
pub struct RawEnvelope {
    pub date: Option<Vec<u8>>,
    pub subject: Option<Vec<u8>>,
    pub from: Option<Vec<RawAddress>>,
    pub to: Option<Vec<RawAddress>>,
    pub cc: Option<Vec<RawAddress>>,
    pub in_reply_to: Option<Vec<u8>>,
    pub message_id: Option<Vec<u8>>,
}

/// One FETCH response: UID, flags (by name), size, envelope, body
/// structure and Gmail labels, each as far as the server sent it.
pub struct FetchData {
    pub uid: Option<u32>,
    pub flags: Vec<String>,
    pub size: Option<u32>,
    pub envelope: Option<RawEnvelope>,
    pub body_structure: Option<mime::BodyPart>,
    pub gmail_labels: Option<Vec<String>>,
}

/// A message as listed from the server.
pub struct Envelope {
    pub uid: u32,
    pub message_id: String,
    pub date: String,
    pub subject: String,
    pub from_address: String,
    pub from_name: Option<String>,
    pub to_addresses: Vec<String>,
    pub cc_addresses: Vec<String>,
    pub imap_flags: Vec<String>,
    pub size_bytes: Option<u32>,
    pub has_attachments: bool,
    pub gmail_labels: Vec<String>,
    pub in_reply_to: Option<String>,
    pub references: Vec<String>,
    /// RFC headers relevant to classification (lowercase name, value).
    pub classification_headers: Vec<(String, String)>,
}

/// The value `mailparse` reads from the raw text of one header (its RFC
/// 2047 encoded words decoded), or `None` when the text does not parse as a
/// header.
pub uninterp spec fn header_value_of(raw: Seq<u8>) -> Option<Seq<char>>;

/// `mailparse::parse_header`, then `MailHeader::get_value`. The contract
/// claims the outcome is the one named `header_value_of`; RFC 2047 and the
/// header grammar are not restated.
#[verifier::external_body]
fn parse_header_value(raw: &[u8]) -> (r: Option<String>)
    ensures
        text::opt_view(r) == header_value_of(raw@),
{
    mailparse::parse_header(raw).ok().map(|(header, _)| header.get_value())
}

/// A header value with its encoded words decoded: the value of the header
/// `X: <input>`, or the input itself when that does not parse.
pub open spec fn rfc2047_decoded(input: Seq<char>) -> Seq<char> {
    match header_value_of(vstd::utf8::encode_utf8("X: "@) + vstd::utf8::encode_utf8(input)) {
        Some(v) => v,
        None => input,
    }
}

/// A header value with its encoded words decoded (see [`rfc2047_decoded`]).
pub fn decode_rfc2047(input: &str) -> (r: String)
    ensures
        r@ == rfc2047_decoded(input@),
{
    let mut raw: Vec<u8> = Vec::new();
    let head = "X: ".as_bytes();
    let mut i: usize = 0;
    while i < head.len()
        invariant
            i <= head@.len(),
            raw@ == head@.take(i as int),
        decreases head@.len() - i,
    {
        raw.push(head[i]);
        assert(head@.take(i + 1) =~= head@.take(i as int).push(head@[i as int]));
        i += 1;
    }
    let body = input.as_bytes();
    let mut j: usize = 0;
    assert(head@.take(head@.len() as int) =~= head@);
    while j < body.len()
        invariant
            j <= body@.len(),
            raw@ == head@ + body@.take(j as int),
        decreases body@.len() - j,
    {
        raw.push(body[j]);
        assert(body@.take(j + 1) =~= body@.take(j as int).push(body@[j as int]));
        j += 1;
    }
    assert(body@.take(body@.len() as int) =~= body@);
    match parse_header_value(raw.as_slice()) {
        Some(v) => v,
        None => input.to_string(),
    }
}

/// Whether a character is an angle bracket.
pub open spec fn is_angle(c: char) -> bool {
    c == '<' || c == '>'
}

/// `s` without its leading angle brackets.
pub open spec fn trim_start_angles(s: Seq<char>) -> Seq<char>
    decreases s.len(),
{
    if s.len() > 0 && is_angle(s[0]) {
        trim_start_angles(s.drop_first())
    } else {
        s
    }
}

/// `s` without its trailing angle brackets.
pub open spec fn trim_end_angles(s: Seq<char>) -> Seq<char>
    decreases s.len(),
{
    if s.len() > 0 && is_angle(s.last()) {
        trim_end_angles(s.drop_last())
    } else {
        s
    }
}

/// A message identifier without the angle brackets around it.
pub open spec fn bare_id(s: Seq<char>) -> Seq<char> {
    trim_end_angles(trim_start_angles(s))
}

/// A message identifier without the angle brackets around it.
fn bare_id_exec(v: &[char]) -> (r: Vec<char>)
    ensures
        r@ == bare_id(v@),
{
    let mut i: usize = 0;
    assert(v@.skip(0) =~= v@);
    while i < v.len() && (v[i] == '<' || v[i] == '>')
        invariant
            i <= v@.len(),
            trim_start_angles(v@) == trim_start_angles(v@.skip(i as int)),
        decreases v@.len() - i,
    {
        assert(v@.skip(i as int).drop_first() =~= v@.skip(i + 1));
        i += 1;
    }
    let mut j: usize = v.len();
    assert(v@.skip(i as int) =~= v@.subrange(i as int, j as int));
    while j > i && (v[j - 1] == '<' || v[j - 1] == '>')
        invariant
            i <= j <= v@.len(),
            bare_id(v@) == trim_end_angles(v@.subrange(i as int, j as int)),
        decreases j,
    {
        assert(v@.subrange(i as int, j as int).drop_last() =~= v@.subrange(i as int, j - 1));
        j -= 1;
    }
    text::slice_to_vec(v, i, j)
}

/// Optional bytes read as text (empty when absent).
pub open spec fn lossy_or_empty(b: Option<Vec<u8>>) -> Seq<char> {
    match b {
        Some(v) => text::utf8_lossy(v@),
        None => Seq::empty(),
    }
}

/// Optional bytes read as text.
fn lossy_or_empty_exec(b: &Option<Vec<u8>>) -> (r: Vec<char>)
    ensures
        r@ == lossy_or_empty(*b),
{
    match b {
        Some(v) => text::string_chars(&text::from_utf8_lossy(v.as_slice())),
        None => Vec::new(),
    }
}

/// The address `mailbox@host` (each part empty when absent).
pub open spec fn address_text(a: RawAddress) -> Seq<char> {
    lossy_or_empty(a.mailbox) + seq!['@'] + lossy_or_empty(a.host)
}

/// The address `mailbox@host`.
fn address_text_exec(a: &RawAddress) -> (r: String)
    ensures
        r@ == address_text(*a),
{
    let mut v = lossy_or_empty_exec(&a.mailbox);
    v.push('@');
    let h = lossy_or_empty_exec(&a.host);
    text::append_chars(&mut v, h.as_slice());
    text::chars_to_string(v.as_slice())
}

/// The addresses of an address list (none when absent).
pub open spec fn address_texts(addrs: Option<Vec<RawAddress>>) -> Seq<Seq<char>> {
    match addrs {
        Some(v) => v@.map_values(|a: RawAddress| address_text(a)),
        None => Seq::empty(),
    }
}

/// The addresses of an address list.
pub fn extract_addresses(addrs: &Option<Vec<RawAddress>>) -> (r: Vec<String>)
    ensures
        text::string_views(r@) == address_texts(*addrs),
{
    let mut r: Vec<String> = Vec::new();
    match addrs {
        Some(list) => {
            let mut i: usize = 0;
            while i < list.len()
                invariant
                    i <= list@.len(),
                    text::string_views(r@) == list@.take(i as int).map_values(|a: RawAddress| address_text(a)),
                decreases list@.len() - i,
            {
                let ghost r0 = r@;
                r.push(address_text_exec(&list[i]));
                assert(text::string_views(r@) =~= text::string_views(r0).push(address_text(list@[i as int])));
                assert(list@.take(i + 1) =~= list@.take(i as int).push(list@[i as int]));
                assert(list@.take(i + 1).map_values(|a: RawAddress| address_text(a))
                    =~= list@.take(i as int).map_values(|a: RawAddress| address_text(a)).push(address_text(list@[i as int])));
                i += 1;
            }
            assert(list@.take(list@.len() as int) =~= list@);
        },
        None => {
            assert(text::string_views(r@) =~= Seq::<Seq<char>>::empty());
        },
    }
    r
}

/// A Gmail label without its leading backslashes.
pub open spec fn label_text(l: Seq<char>) -> Seq<char> {
    text::trim_start_char(l, '\\')
}

/// The sender of an envelope: the first `From` address and its name
/// (decoded), or nothing.
pub open spec fn sender(env: RawEnvelope) -> (Seq<char>, Option<Seq<char>>) {
    match env.from {
        Some(list) => if list@.len() > 0 {
            let a = list@[0];
            (address_text(a), match a.name {
                Some(n) => Some(rfc2047_decoded(text::utf8_lossy(n@))),
                None => None,
            })
        } else {
            (Seq::empty(), None)
        },
        None => (Seq::empty(), None),
    }
}

/// The envelope a FETCH response gives, when it has a UID and an envelope:
/// the flags as given; the message identifier and `In-Reply-To` without
/// angle brackets (an empty `In-Reply-To` is none); the date as sent; the
/// subject and sender name decoded; the sender, `To` and `Cc` addresses as
/// `mailbox@host`; attachments per the body structure; Gmail labels without
/// leading backslashes; no references or classification headers yet.
pub open spec fn envelope_ok(e: Envelope, f: FetchData) -> bool {
    f.uid is Some && f.envelope is Some && {
        let env = f.envelope->0;
        let irt = bare_id(lossy_or_empty(env.in_reply_to));
        &&& e.uid == f.uid->0
        &&& e.message_id@ == bare_id(lossy_or_empty(env.message_id))
        &&& e.date@ == lossy_or_empty(env.date)
        &&& e.subject@ == match env.subject {
            Some(s) => rfc2047_decoded(text::utf8_lossy(s@)),
            None => Seq::empty(),
        }
        &&& (e.from_address@, text::opt_view(e.from_name)) == sender(env)
        &&& text::string_views(e.to_addresses@) == address_texts(env.to)
        &&& text::string_views(e.cc_addresses@) == address_texts(env.cc)
        &&& text::string_views(e.imap_flags@) == text::string_views(f.flags@)
        &&& e.size_bytes == f.size
        &&& e.has_attachments == match f.body_structure {
            Some(b) => mime::has_attachment(b),
            None => false,
        }
        &&& text::string_views(e.gmail_labels@) == match f.gmail_labels {
            Some(ls) => text::string_views(ls@).map_values(|l: Seq<char>| label_text(l)),
            None => Seq::empty(),
        }
        &&& text::opt_view(e.in_reply_to) == if env.in_reply_to is Some && irt.len() > 0 { Some(irt) } else { None }
        &&& e.references@.len() == 0
        &&& e.classification_headers@.len() == 0
    }
}

/// Every `Cc` address of a FETCH response reaches its envelope: the
/// envelope's `Cc` list holds, in order and one for one, `mailbox@host` of
/// each address the response lists under `Cc`, and is empty when the
/// response has no `Cc` list.
pub proof fn law_cc_addresses(e: Envelope, f: FetchData)
    requires
        envelope_ok(e, f),
    ensures
        f.envelope->0.cc is None ==> e.cc_addresses@.len() == 0,
        f.envelope->0.cc matches Some(list) ==> e.cc_addresses@.len() == list@.len(),
        f.envelope->0.cc matches Some(list) ==> forall|i: int| 0 <= i < list@.len() ==>
            #[trigger] e.cc_addresses@[i]@ == lossy_or_empty(list@[i].mailbox) + seq!['@'] + lossy_or_empty(list@[i].host),
{
    let cc = f.envelope->0.cc;
    assert(text::string_views(e.cc_addresses@).len() == e.cc_addresses@.len());
    if let Some(list) = cc {
        assert forall|i: int| 0 <= i < list@.len() implies
            #[trigger] e.cc_addresses@[i]@ == lossy_or_empty(list@[i].mailbox) + seq!['@'] + lossy_or_empty(list@[i].host) by {
            assert(text::string_views(e.cc_addresses@)[i] == e.cc_addresses@[i]@);
            assert(address_texts(cc)[i] == address_text(list@[i]));
        }
    }
}

/// A copy of a list of strings.
fn copy_strings(v: &Vec<String>) -> (r: Vec<String>)
    ensures
        text::string_views(r@) == text::string_views(v@),
{
    let mut r: Vec<String> = Vec::new();
    let mut i: usize = 0;
    while i < v.len()
        invariant
            i <= v@.len(),
            text::string_views(r@) == text::string_views(v@).take(i as int),
        decreases v@.len() - i,
    {
        let ghost r0 = r@;
        r.push(v[i].clone());
        assert(text::string_views(r@) =~= text::string_views(r0).push(v@[i as int]@));
        assert(text::string_views(v@).take(i + 1) =~= text::string_views(v@).take(i as int).push(v@[i as int]@));
        i += 1;
    }
    assert(text::string_views(v@).take(v@.len() as int) =~= text::string_views(v@));
    r
}

/// Gmail labels without leading backslashes.
fn label_texts(labels: &Option<Vec<String>>) -> (r: Vec<String>)
    ensures
        text::string_views(r@) == match *labels {
            Some(ls) => text::string_views(ls@).map_values(|l: Seq<char>| label_text(l)),
            None => Seq::empty(),
        },
{
    let mut r: Vec<String> = Vec::new();
    match labels {
        Some(ls) => {
            let ghost lv = text::string_views(ls@);
            let mut i: usize = 0;
            while i < ls.len()
                invariant
                    i <= ls@.len(),
                    lv == text::string_views(ls@),
                    text::string_views(r@) == lv.take(i as int).map_values(|l: Seq<char>| label_text(l)),
                decreases ls@.len() - i,
            {
                let ghost r0 = r@;
                let lc = text::string_chars(&ls[i]);
                let t = trim_start_char_exec(lc.as_slice(), '\\');
                r.push(text::chars_to_string(t.as_slice()));
                assert(lv[i as int] == lc@);
                assert(text::string_views(r@) =~= text::string_views(r0).push(label_text(lv[i as int])));
                assert(lv.take(i + 1) =~= lv.take(i as int).push(lv[i as int]));
                assert(lv.take(i + 1).map_values(|l: Seq<char>| label_text(l))
                    =~= lv.take(i as int).map_values(|l: Seq<char>| label_text(l)).push(label_text(lv[i as int])));
                i += 1;
            }
            assert(lv.take(ls@.len() as int) =~= lv);
        },
        None => {
            assert(text::string_views(r@) =~= Seq::<Seq<char>>::empty());
        },
    }
    r
}

/// `s` without all its leading `c`.
fn trim_start_char_exec(v: &[char], c: char) -> (r: Vec<char>)
    ensures
        r@ == text::trim_start_char(v@, c),
{
    let mut i: usize = 0;
    assert(v@.skip(0) =~= v@);
    while i < v.len() && v[i] == c
        invariant
            i <= v@.len(),
            text::trim_start_char(v@, c) == text::trim_start_char(v@.skip(i as int), c),
        decreases v@.len() - i,
    {
        assert(v@.skip(i as int).drop_first() =~= v@.skip(i + 1));
        i += 1;
    }
    let r = text::slice_to_vec(v, i, v.len());
    assert(r@ =~= v@.skip(i as int));
    r
}

/// The envelope of a FETCH response (see [`envelope_ok`]); `None` without
/// a UID or an envelope.
pub fn parse_envelope(fetch: &FetchData) -> (r: Option<Envelope>)
    ensures
        r is None <==> (fetch.uid is None || fetch.envelope is None),
        r matches Some(e) ==> envelope_ok(e, *fetch),
{
    let uid = match fetch.uid {
        Some(u) => u,
        None => {
            return None;
        },
    };
    let env = match &fetch.envelope {
        Some(e) => e,
        None => {
            return None;
        },
    };
    let has_attachments = match &fetch.body_structure {
        Some(b) => mime::has_attachments(b),
        None => false,
    };
    let gmail_labels = label_texts(&fetch.gmail_labels);
    let message_id = text::chars_to_string(bare_id_exec(lossy_or_empty_exec(&env.message_id).as_slice()).as_slice());
    let date = text::chars_to_string(lossy_or_empty_exec(&env.date).as_slice());
    let subject = match &env.subject {
        Some(s) => decode_rfc2047(text::from_utf8_lossy(s.as_slice()).as_str()),
        None => String::new(),
    };
    let (from_address, from_name) = match &env.from {
        Some(list) => {
            if list.len() > 0 {
                let a = &list[0];
                let name = match &a.name {
                    Some(n) => Some(decode_rfc2047(text::from_utf8_lossy(n.as_slice()).as_str())),
                    None => None,
                };
                (address_text_exec(a), name)
            } else {
                (String::new(), None)
            }
        },
        None => (String::new(), None),
    };
    let to_addresses = extract_addresses(&env.to);
    let cc_addresses = extract_addresses(&env.cc);
    let in_reply_to = match &env.in_reply_to {
        Some(b) => {
            let id = bare_id_exec(text::string_chars(&text::from_utf8_lossy(b.as_slice())).as_slice());
            if id.len() > 0 {
                Some(text::chars_to_string(id.as_slice()))
            } else {
                None
            }
        },
        None => None,
    };
    Some(Envelope {
        uid,
        message_id,
        date,
        subject,
        from_address,
        from_name,
        to_addresses,
        cc_addresses,
        imap_flags: copy_strings(&fetch.flags),
        size_bytes: fetch.size,
        has_attachments,
        gmail_labels,
        in_reply_to,
        references: Vec::new(),
        classification_headers: Vec::new(),
    })
}


// ── Message rows ────────────────────────────────────────────────────────────

/// A message ready to be stored, from any source.
pub struct NewMessage {
    pub account_id: String,
    pub message_id: String,
    pub imap_uid: u32,
    pub imap_folder: String,
    pub date: i64,
    pub from_address: String,
    pub from_name: Option<String>,
    /// JSON list.
    pub to_addresses: String,
    /// JSON list.
    pub cc_addresses: String,
    /// JSON list.
    pub bcc_addresses: String,
    pub subject: Option<String>,
    pub body_text: Option<String>,
    pub body_html: Option<String>,
    pub size_bytes: Option<u32>,
    pub has_attachments: bool,
    pub in_reply_to: Option<String>,
    /// JSON list.
    pub references_ids: String,
    /// JSON list.
    pub imap_flags: String,
    pub classification: Option<String>,
    pub is_important: bool,
    pub distilled_text: Option<String>,
    pub processed_at: Option<i64>,
    pub participant_key: String,
    pub conversation_id: String,
}

/// The milliseconds since the epoch that `chrono` reads from an RFC 2822
/// date, if it is one.
pub uninterp spec fn rfc2822_millis(date: Seq<char>) -> Option<i64>;

/// The milliseconds since the epoch that `chrono` reads from a date in the
/// given format, if it is in it.
pub uninterp spec fn formatted_date_millis(date: Seq<char>, format: Seq<char>) -> Option<i64>;

/// `chrono::DateTime::parse_from_rfc2822`, then `timestamp_millis`. The
/// contract claims the outcome is the one named `rfc2822_millis`.
#[verifier::external_body]
fn parse_rfc2822_millis(date: &str) -> (r: Option<i64>)
    ensures
        r == rfc2822_millis(date@),
{
    chrono::DateTime::parse_from_rfc2822(date).ok().map(|d| d.timestamp_millis())
}

/// `chrono::DateTime::parse_from_str`, then `timestamp_millis`. The
/// contract claims the outcome is the one named `formatted_date_millis`.
#[verifier::external_body]
fn parse_formatted_millis(date: &str, format: &str) -> (r: Option<i64>)
    ensures
        r == formatted_date_millis(date@, format@),
{
    chrono::DateTime::parse_from_str(date, format).ok().map(|d| d.timestamp_millis())
}

/// The date of a message in milliseconds: RFC 2822, else the IMAP internal
/// date form `%d-%b-%Y %H:%M:%S %z`, else 0.
pub open spec fn date_millis(date: Seq<char>) -> i64 {
    match rfc2822_millis(date) {
        Some(m) => m,
        None => match formatted_date_millis(date, "%d-%b-%Y %H:%M:%S %z"@) {
            Some(m) => m,
            None => 0,
        },
    }
}

/// The date of a message in milliseconds (see [`date_millis`]).
pub fn parse_date(date_str: &str) -> (r: i64)
    ensures
        r == date_millis(date_str@),
{
    match parse_rfc2822_millis(date_str) {
        Some(m) => m,
        None => match parse_formatted_millis(date_str, "%d-%b-%Y %H:%M:%S %z") {
            Some(m) => m,
            None => 0,
        },
    }
}

/// The message row of an envelope fetched from `folder`: the participant
/// key and conversation identifier of its addresses, its sender in
/// canonical form, its `To`, `Cc` and flags sorted as JSON lists, its
/// references as a JSON list, its date in milliseconds; nothing processed
/// yet.
pub open spec fn message_ok(m: NewMessage, e: Envelope, account_id: Seq<char>, folder: Seq<char>, selfs: Seq<Seq<char>>) -> bool {
    let key = participants::participant_key_of(e.from_address@, text::string_views(e.to_addresses@), text::string_views(e.cc_addresses@), selfs);
    &&& m.account_id@ == account_id
    &&& m.message_id@ == e.message_id@
    &&& m.imap_uid == e.uid
    &&& m.imap_folder@ == folder
    &&& m.date == date_millis(e.date@)
    &&& m.from_address@ == participants::normalized(e.from_address@)
    &&& text::opt_view(m.from_name) == text::opt_view(e.from_name)
    &&& m.to_addresses@ == digest::json_string_list(sorted_set::sorted_strings_of(text::string_views(e.to_addresses@)))
    &&& m.cc_addresses@ == digest::json_string_list(sorted_set::sorted_strings_of(text::string_views(e.cc_addresses@)))
    &&& m.bcc_addresses@ == "[]"@
    &&& text::opt_view(m.subject) == Some(e.subject@)
    &&& m.body_text is None && m.body_html is None && m.size_bytes is None
    &&& m.has_attachments == e.has_attachments
    &&& text::opt_view(m.in_reply_to) == text::opt_view(e.in_reply_to)
    &&& m.references_ids@ == digest::json_string_list(text::string_views(e.references@))
    &&& m.imap_flags@ == digest::json_string_list(sorted_set::sorted_strings_of(text::string_views(e.imap_flags@)))
    &&& m.classification is None && !m.is_important && m.distilled_text is None && m.processed_at is None
    &&& m.participant_key@ == key
    &&& m.conversation_id@ == digest::short_digest_id(key)
}

/// The message row of an envelope (see [`message_ok`]).
pub fn envelope_to_new_message(envelope: &Envelope, account_id: &str, folder: &str, self_emails: &[String]) -> (r: NewMessage)
    ensures
        message_ok(r, *envelope, account_id@, folder@, participants::views(self_emails@)),
{
    let participant_key = participants::compute_participant_key(
        envelope.from_address.as_str(),
        envelope.to_addresses.as_slice(),
        envelope.cc_addresses.as_slice(),
        self_emails,
    );
    let conversation_id = digest::compute_conversation_id(participant_key.as_str());
    let to_sorted = sorted_set::sorted_strings(&envelope.to_addresses);
    let cc_sorted = sorted_set::sorted_strings(&envelope.cc_addresses);
    let flags_sorted = sorted_set::sorted_strings(&envelope.imap_flags);
    proof {
        assert(participants::views(envelope.to_addresses@) == text::string_views(envelope.to_addresses@));
        assert(participants::views(envelope.cc_addresses@) == text::string_views(envelope.cc_addresses@));
    }
    NewMessage {
        account_id: account_id.to_string(),
        message_id: envelope.message_id.clone(),
        imap_uid: envelope.uid,
        imap_folder: folder.to_string(),
        date: parse_date(envelope.date.as_str()),
        from_address: participants::normalize_email(envelope.from_address.as_str()),
        from_name: text::copy_opt(&envelope.from_name),
        to_addresses: digest::to_json_string_list(&to_sorted),
        cc_addresses: digest::to_json_string_list(&cc_sorted),
        bcc_addresses: "[]".to_string(),
        subject: Some(envelope.subject.clone()),
        body_text: None,
        body_html: None,
        size_bytes: None,
        has_attachments: envelope.has_attachments,
        in_reply_to: text::copy_opt(&envelope.in_reply_to),
        references_ids: digest::to_json_string_list(&envelope.references),
        imap_flags: digest::to_json_string_list(&flags_sorted),
        classification: None,
        is_important: false,
        distilled_text: None,
        processed_at: None,
        participant_key,
        conversation_id,
    }
}

/// The message rows of envelopes fetched from `folder`, in order.
pub fn prepare_messages(account_id: &str, folder: &str, envelopes: &[Envelope], self_emails: &[String]) -> (r: Vec<NewMessage>)
    ensures
        r@.len() == envelopes@.len(),
        forall|i: int| 0 <= i < r@.len() ==> message_ok(#[trigger] r@[i], envelopes@[i], account_id@, folder@, participants::views(self_emails@)),
{
    let mut r: Vec<NewMessage> = Vec::new();
    let mut i: usize = 0;
    while i < envelopes.len()
        invariant
            i <= envelopes@.len(),
            r@.len() == i,
            forall|j: int| 0 <= j < i ==> message_ok(#[trigger] r@[j], envelopes@[j], account_id@, folder@, participants::views(self_emails@)),
        decreases envelopes@.len() - i,
    {
        r.push(envelope_to_new_message(&envelopes[i], account_id, folder, self_emails));
        i += 1;
    }
    r
}

// ── Stored flags ────────────────────────────────────────────────────────────

/// Whether every item of a JSON array is a string.
pub open spec fn all_strings(items: Seq<Option<Seq<char>>>) -> bool {
    forall|i: int| 0 <= i < items.len() ==> (#[trigger] items[i]) is Some
}

/// The flags of a message row: its JSON column read as a list of strings,
/// empty when it is not one.
pub open spec fn stored_flags(json: Seq<char>) -> Seq<Seq<char>> {
    match classifier::json_array_items(json) {
        Some(items) => if all_strings(items) {
            classifier::array_strings(items)
        } else {
            Seq::empty()
        },
        None => Seq::empty(),
    }
}

/// The flags of a message row (see [`stored_flags`]).
pub fn parse_stored_flags(json: &str) -> (r: Vec<String>)
    ensures
        text::string_views(r@) == stored_flags(json@),
{
    match classifier::json_array(json) {
        Some(items) => {
            let ghost iv = classifier::items_view(items@);
            let mut r: Vec<String> = Vec::new();
            let mut i: usize = 0;
            while i < items.len()
                invariant
                    i <= items@.len(),
                    iv == classifier::items_view(items@),
                    classifier::json_array_items(json@) == Some(iv),
                    all_strings(iv.take(i as int)),
                    text::string_views(r@) == classifier::array_strings(iv.take(i as int)),
                decreases items@.len() - i,
            {
                assert(iv.take(i + 1).drop_last() =~= iv.take(i as int));
                assert(iv.take(i + 1).last() == iv[i as int]);
                match &items[i] {
                    Some(x) => {
                        let ghost r0 = r@;
                        r.push(x.clone());
                        assert(text::string_views(r@) =~= text::string_views(r0).push(x@));
                        assert(all_strings(iv.take(i + 1))) by {
                            assert forall|j: int| 0 <= j < i + 1 implies (#[trigger] iv.take(i + 1)[j]) is Some by {
                                if j < i {
                                    assert(iv.take(i + 1)[j] == iv.take(i as int)[j]);
                                }
                            }
                        }
                    },
                    None => {
                        assert(!all_strings(iv)) by {
                            assert(iv[i as int] is None);
                        }
                        let empty: Vec<String> = Vec::new();
                        assert(text::string_views(empty@) =~= Seq::<Seq<char>>::empty());
                        return empty;
                    },
                }
                i += 1;
            }
            assert(iv.take(items@.len() as int) =~= iv);
            r
        },
        None => {
            let empty: Vec<String> = Vec::new();
            assert(text::string_views(empty@) =~= Seq::<Seq<char>>::empty());
            empty
        },
    }
}

/// Whether `s` is in `list`.
fn has_string(list: &Vec<String>, s: &str) -> (r: bool)
    ensures
        r == text::string_views(list@).contains(s@),
{
    let sc = text::str_chars(s);
    let mut i: usize = 0;
    while i < list.len()
        invariant
            i <= list@.len(),
            sc@ == s@,
            forall|j: int| 0 <= j < i ==> text::string_views(list@)[j] != s@,
        decreases list@.len() - i,
    {
        let e = text::string_chars(&list[i]);
        if text::chars_eq(e.as_slice(), sc.as_slice()) {
            assert(text::string_views(list@)[i as int] == s@);
            return true;
        }
        i += 1;
    }
    false
}

/// Whether a message row is unread: its flags lack `Seen`.
pub fn is_unread(flags_json: &str) -> (r: bool)
    ensures
        r == !stored_flags(flags_json@).contains("Seen"@),
{
    let flags = parse_stored_flags(flags_json);
    !has_string(&flags, "Seen")
}

/// The flags column of a message row marked seen: `None` when its flags
/// already hold `Seen`, else the flags with `Seen` added, as a JSON list,
/// which reads back as those flags, so that the row is then read.
pub fn flags_marked_seen(flags_json: &str) -> (r: Option<String>)
    ensures
        match r {
            None => stored_flags(flags_json@).contains("Seen"@),
            Some(j) => !stored_flags(flags_json@).contains("Seen"@)
                && j@ == digest::json_string_list(stored_flags(flags_json@).push("Seen"@))
                && stored_flags(j@) == stored_flags(flags_json@).push("Seen"@)
                && stored_flags(j@).contains("Seen"@),
        },
{
    let mut flags = parse_stored_flags(flags_json);
    if has_string(&flags, "Seen") {
        return None;
    }
    let ghost f0 = text::string_views(flags@);
    flags.push("Seen".to_string());
    assert(text::string_views(flags@) =~= f0.push("Seen"@));
    assert(flags@.map_values(|s: String| s@) =~= text::string_views(flags@));
    let j = digest::to_json_string_list(&flags);
    proof {
        let items = flags@.map_values(|s: String| Some(s@));
        assert(all_strings(items));
        lemma_array_strings_of_strings(text::string_views(flags@));
        assert(items =~= text::string_views(flags@).map_values(|s: Seq<char>| Some(s)));
        assert(f0.push("Seen"@)[f0.len() as int] == "Seen"@);
    }
    Some(j)
}

/// Reading the strings of an array whose items are all strings gives them
/// back.
proof fn lemma_array_strings_of_strings(l: Seq<Seq<char>>)
    ensures
        classifier::array_strings(l.map_values(|s: Seq<char>| Some(s))) == l,
    decreases l.len(),
{
    if l.len() > 0 {
        lemma_array_strings_of_strings(l.drop_last());
        assert(l.map_values(|s: Seq<char>| Some(s)).drop_last() =~= l.drop_last().map_values(|s: Seq<char>| Some(s)));
        assert(l.drop_last().push(l.last()) =~= l);
    } else {
        assert(l =~= Seq::<Seq<char>>::empty());
    }
}

} // verus!
