//! Outgoing mail: the RFC 5322 message sent over SMTP, built with `lettre`
//! from the fields of a message.
use vstd::prelude::*;
use crate::text;
use crate::mime::EddieError;
use lettre::message::header::References;
use std::time::{Duration, UNIX_EPOCH};

verus! {

broadcast use vstd::string::group_string_axioms;

#[verifier::external_type_specification]
#[verifier::external_body]
pub struct ExMailbox(lettre::message::Mailbox);

/// Whether `lettre` reads `text` as a mailbox (`Name <user@domain>` or
/// `user@domain`).
pub uninterp spec fn mailbox_parses(text: Seq<char>) -> bool;

/// `str::parse::<lettre::message::Mailbox>`. The contract claims that it
/// succeeds exactly when the text reads as a mailbox, named
/// `mailbox_parses`; the grammar and the error's text are not restated.
#[verifier::external_body]
fn parse_mailbox(text: &str) -> (r: Result<lettre::message::Mailbox, String>)
    ensures
        r is Ok <==> mailbox_parses(text@),
{
    text.parse::<lettre::message::Mailbox>().map_err(|e| e.to_string())
}

/// The bytes `lettre` formats for a message from `sender` with the subject,
/// the `To` and `Cc` recipients, `In-Reply-To`, `References`, the body and
/// the date (seconds since the epoch), in that order of building.
pub uninterp spec fn smtp_bytes(
    sender: Seq<char>,
    subject: Seq<char>,
    to: Seq<Seq<char>>,
    cc: Seq<Seq<char>>,
    in_reply_to: Option<Seq<char>>,
    references: Option<Seq<char>>,
    body: Seq<char>,
    date_secs: u64,
) -> Seq<u8>;

/// `lettre::Message::builder()` with the sender, subject and date, the
/// recipients, `In-Reply-To` and `References` given, then `body` and
/// `formatted`; each address is read as a mailbox on the way in (all of
/// them read as mailboxes: the `requires`). The
/// contract claims that building succeeds exactly when there is a `To` or
/// `Cc` recipient (the crate's envelope needs one), and that the bytes are
/// the ones named `smtp_bytes`; the format is not restated. Dates from the
/// year 10000 on are left out (the date header panics there).
#[verifier::external_body]
fn format_message(
    sender: &str,
    subject: &str,
    to: &Vec<String>,
    cc: &Vec<String>,
    in_reply_to: &Option<String>,
    references: &Option<String>,
    body: &str,
    date_secs: u64,
) -> (r: Result<Vec<u8>, String>)
    requires
        mailbox_parses(sender@),
        forall|i: int| 0 <= i < to@.len() ==> mailbox_parses(#[trigger] to@[i]@),
        forall|i: int| 0 <= i < cc@.len() ==> mailbox_parses(#[trigger] cc@[i]@),
        date_secs < 253402300800,
    ensures
        r is Ok <==> to@.len() + cc@.len() > 0,
        r matches Ok(b) ==> b@ == smtp_bytes(sender@, subject@, text::string_views(to@), text::string_views(cc@),
            text::opt_view(*in_reply_to), text::opt_view(*references), body@, date_secs),
{
    let date = UNIX_EPOCH + Duration::from_secs(date_secs);
    let mut b = lettre::Message::builder().from(sender.parse().unwrap()).subject(subject).date(date);
    for t in to { b = b.to(t.parse().unwrap()); }
    for t in cc { b = b.cc(t.parse().unwrap()); }
    if let Some(id) = in_reply_to { b = b.in_reply_to(id.clone()); }
    if let Some(refs) = references { b = b.header(References::from(refs.clone())); }
    b.body(body.to_string()).map(|m| m.formatted()).map_err(|e| e.to_string())
}

/// How the message goes to the server: implicit TLS, STARTTLS, or in the
/// clear.
pub enum SmtpTransport {
    ImplicitTls,
    StartTls,
    Plain,
}

/// The transport for a server: implicit TLS on port 465 when TLS is on,
/// STARTTLS on other ports when TLS is on, in the clear when it is off.
pub fn smtp_transport(tls: bool, port: u16) -> (r: SmtpTransport)
    ensures
        r == if tls && port == 465 {
            SmtpTransport::ImplicitTls
        } else if tls {
            SmtpTransport::StartTls
        } else {
            SmtpTransport::Plain
        },
{
    if tls && port == 465 {
        SmtpTransport::ImplicitTls
    } else if tls {
        SmtpTransport::StartTls
    } else {
        SmtpTransport::Plain
    }
}

/// A message to send.
pub struct SmtpMessage {
    pub from: String,
    pub from_name: Option<String>,
    pub to: Vec<String>,
    pub cc: Vec<String>,
    pub subject: String,
    pub body: String,
    pub in_reply_to: Option<String>,
    pub references: Vec<String>,
}

/// The sender as it is parsed: `Name <address>` with a name, else the
/// address.
pub open spec fn sender_text(from: Seq<char>, name: Option<Seq<char>>) -> Seq<char> {
    match name {
        Some(n) => n + " <"@ + from + ">"@,
        None => from,
    }
}

/// The `References` header: the identifiers separated by spaces, none when
/// there are none.
pub open spec fn references_text(refs: Seq<Seq<char>>) -> Option<Seq<char>> {
    if refs.len() == 0 {
        None
    } else {
        Some(text::join(refs, " "@))
    }
}

/// The first address from `from` on that does not read as a mailbox.
pub open spec fn first_bad(addrs: Seq<Seq<char>>, from: int) -> Option<int>
    decreases addrs.len() - from,
{
    if from < 0 || from >= addrs.len() {
        None
    } else if !mailbox_parses(addrs[from]) {
        Some(from)
    } else {
        first_bad(addrs, from + 1)
    }
}

/// Checks that the addresses read as mailboxes, in order, stopping at the
/// first that does not (with its index and the parser's error).
fn check_all(addrs: &Vec<String>) -> (r: Result<(), (usize, String)>)
    ensures
        match r {
            Ok(()) => first_bad(text::string_views(addrs@), 0) is None,
            Err((k, _)) => first_bad(text::string_views(addrs@), 0) == Some(k as int) && k < addrs@.len(),
        },
{
    let ghost av = text::string_views(addrs@);
    let mut i: usize = 0;
    while i < addrs.len()
        invariant
            i <= addrs@.len(),
            av == text::string_views(addrs@),
            first_bad(av, 0) == first_bad(av, i as int),
        decreases addrs@.len() - i,
    {
        assert(av[i as int] == addrs@[i as int]@);
        match parse_mailbox(addrs[i].as_str()) {
            Ok(_) => {},
            Err(e) => {
                return Err((i, e));
            },
        }
        i += 1;
    }
    Ok(())
}

pub proof fn lemma_first_bad(addrs: Seq<Seq<char>>, from: int)
    requires
        0 <= from,
        first_bad(addrs, from) is None,
    ensures
        forall|i: int| from <= i < addrs.len() ==> mailbox_parses(#[trigger] addrs[i]),
    decreases addrs.len() - from,
{
    if from < addrs.len() {
        lemma_first_bad(addrs, from + 1);
    }
}

/// The sender handed to the parser (see [`sender_text`]).
pub fn smtp_sender(from: &String, name: &Option<String>) -> (r: String)
    ensures
        r@ == sender_text(from@, text::opt_view(*name)),
{
    match name {
        Some(n) => {
            let mut v = text::string_chars(n);
            text::append_chars(&mut v, text::str_chars(" <").as_slice());
            text::append_chars(&mut v, text::string_chars(from).as_slice());
            text::append_chars(&mut v, text::str_chars(">").as_slice());
            text::chars_to_string(v.as_slice())
        },
        None => from.clone(),
    }
}

/// The `References` header handed to the builder (see [`references_text`]).
pub fn smtp_references(refs: &Vec<String>) -> (r: Option<String>)
    ensures
        text::opt_view(r) == references_text(text::string_views(refs@)),
{
    if refs.len() == 0 {
        return None;
    }
    let mut parts: Vec<Vec<char>> = Vec::new();
    let mut i: usize = 0;
    while i < refs.len()
        invariant
            i <= refs@.len(),
            text::seqs_of(parts@) == text::string_views(refs@).take(i as int),
        decreases refs@.len() - i,
    {
        let ghost p0 = parts@;
        let x = text::string_chars(&refs[i]);
        parts.push(x);
        proof { text::lemma_seqs_of_push(p0, x); }
        assert(text::string_views(refs@).take(i + 1) =~= text::string_views(refs@).take(i as int).push(refs@[i as int]@));
        i += 1;
    }
    assert(text::string_views(refs@).take(refs@.len() as int) =~= text::string_views(refs@));
    let sp = text::str_chars(" ");
    let joined = text::join_exec(&parts, sp.as_slice());
    Some(text::chars_to_string(joined.as_slice()))
}

/// Text made of a literal, a string and a literal.
fn framed(a: &str, s: &String, b: &str) -> (r: String)
    ensures
        r@ == a@ + s@ + b@,
{
    let mut v = text::lit_then(a, text::string_chars(s).as_slice());
    text::append_chars(&mut v, text::str_chars(b).as_slice());
    text::chars_to_string(v.as_slice())
}

/// The raw message to send, dated `date_secs` (seconds since the epoch):
/// an invalid sender, or the first invalid `To` or `Cc` address, is refused
/// as invalid input with a message naming it; without any recipient the
/// message cannot be built; otherwise the bytes `lettre` formats from the
/// sender (see [`sender_text`]), the subject, the recipients, `In-Reply-To`,
/// the references (see [`references_text`]), the body and the date.
pub fn build_smtp_message(message: &SmtpMessage, date_secs: u64) -> (r: Result<Vec<u8>, EddieError>)
    requires
        date_secs < 253402300800,
    ensures
        ({
            let sender = sender_text(message.from@, text::opt_view(message.from_name));
            let to = text::string_views(message.to@);
            let cc = text::string_views(message.cc@);
            if !mailbox_parses(sender) {
                r matches Err(EddieError::InvalidInput(m)) && text::starts_with(m@, "Invalid from address: "@)
            } else if first_bad(to, 0) is Some {
                r matches Err(EddieError::InvalidInput(m))
                    && text::starts_with(m@, "Invalid to address '"@ + to[first_bad(to, 0)->0] + "': "@)
            } else if first_bad(cc, 0) is Some {
                r matches Err(EddieError::InvalidInput(m))
                    && text::starts_with(m@, "Invalid cc address '"@ + cc[first_bad(cc, 0)->0] + "': "@)
            } else if to.len() + cc.len() == 0 {
                r matches Err(EddieError::Backend(m)) && text::starts_with(m@, "Failed to build email: "@)
            } else {
                r matches Ok(b) && b@ == smtp_bytes(sender, message.subject@, to, cc, text::opt_view(message.in_reply_to),
                    references_text(text::string_views(message.references@)), message.body@, date_secs)
            }
        }),
{
    let sender = smtp_sender(&message.from, &message.from_name);
    match parse_mailbox(sender.as_str()) {
        Ok(_) => {},
        Err(e) => {
            let m = text::chars_to_string(text::lit_then("Invalid from address: ", text::string_chars(&e).as_slice()).as_slice());
            assert(m@.subrange(0, "Invalid from address: "@.len() as int) =~= "Invalid from address: "@);
            return Err(EddieError::InvalidInput(m));
        },
    }
    match check_all(&message.to) {
        Ok(()) => {},
        Err((k, e)) => {
            let head = framed("Invalid to address '", &message.to[k], "': ");
            let mut v = text::string_chars(&head);
            text::append_chars(&mut v, text::string_chars(&e).as_slice());
            let m = text::chars_to_string(v.as_slice());
            assert(m@.subrange(0, head@.len() as int) =~= head@);
            return Err(EddieError::InvalidInput(m));
        },
    }
    match check_all(&message.cc) {
        Ok(()) => {},
        Err((k, e)) => {
            let head = framed("Invalid cc address '", &message.cc[k], "': ");
            let mut v = text::string_chars(&head);
            text::append_chars(&mut v, text::string_chars(&e).as_slice());
            let m = text::chars_to_string(v.as_slice());
            assert(m@.subrange(0, head@.len() as int) =~= head@);
            return Err(EddieError::InvalidInput(m));
        },
    }
    proof {
        lemma_first_bad(text::string_views(message.to@), 0);
        lemma_first_bad(text::string_views(message.cc@), 0);
        assert forall|i: int| 0 <= i < message.to@.len() implies mailbox_parses(#[trigger] message.to@[i]@) by {
            assert(text::string_views(message.to@)[i] == message.to@[i]@);
        }
        assert forall|i: int| 0 <= i < message.cc@.len() implies mailbox_parses(#[trigger] message.cc@[i]@) by {
            assert(text::string_views(message.cc@)[i] == message.cc@[i]@);
        }
    }
    let references = smtp_references(&message.references);
    match format_message(sender.as_str(), message.subject.as_str(), &message.to, &message.cc, &message.in_reply_to,
        &references, message.body.as_str(), date_secs) {
        Ok(bytes) => Ok(bytes),
        Err(e) => {
            let m = text::chars_to_string(text::lit_then("Failed to build email: ", text::string_chars(&e).as_slice()).as_slice());
            assert(m@.subrange(0, "Failed to build email: "@.len() as int) =~= "Failed to build email: "@);
            Err(EddieError::Backend(m))
        },
    }
}

} // verus!
