//! Sending a message from the compose view: the message shown at once in
//! its conversation (before the server has it), the recipients that join
//! the trust network, and the send action queued for the worker.
use vstd::prelude::*;
use crate::text;
use crate::participants;
use crate::digest;
use crate::envelope::NewMessage;

verus! {

broadcast use vstd::string::group_string_axioms;

/// A person or address known to an account.
pub struct NewEntity {
    pub account_id: String,
    pub email: String,
    pub display_name: Option<String>,
    pub trust_level: String,
    pub source: Option<String>,
    pub first_seen: i64,
    pub last_seen: Option<i64>,
    pub sent_count: Option<i32>,
    pub metadata: Option<String>,
}

/// The send action queued for the worker, which replays it against the
/// server.
pub struct SendAction {
    pub from: String,
    pub from_name: Option<String>,
    pub to: Vec<String>,
    pub cc: Vec<String>,
    pub subject: String,
    pub body: String,
    pub in_reply_to: Option<String>,
    pub references: Vec<String>,
    pub message_db_id: String,
    pub placeholder_message_id: String,
}

/// What the compose view is answered: the local identifier of the message
/// and its conversation.
pub struct SendResult {
    pub message_id: String,
    pub conversation_id: String,
}

/// Everything a send produces before anything goes to the server.
pub struct ComposedSend {
    pub message: NewMessage,
    pub entities: Vec<NewEntity>,
    pub action: SendAction,
    pub result: SendResult,
}

/// A message to send, as the compose view gives it.
pub struct Draft {
    pub account_id: String,
    pub from_email: String,
    pub from_name: Option<String>,
    pub to: Vec<String>,
    pub cc: Vec<String>,
    pub subject: String,
    pub body: String,
    pub in_reply_to: Option<String>,
    pub references: Vec<String>,
}

/// The recipients that join the trust network: the `To` and `Cc`
/// addresses in canonical form, without the account's own addresses and
/// without repeats, in the order each first occurs.
pub open spec fn fresh_recipients(addrs: Seq<Seq<char>>, selfs: Seq<Seq<char>>) -> Seq<Seq<char>>
    decreases addrs.len(),
{
    if addrs.len() == 0 {
        Seq::empty()
    } else {
        let rest = fresh_recipients(addrs.drop_last(), selfs);
        let a = participants::normalized(addrs.last());
        if selfs.map_values(|s: Seq<char>| participants::normalized(s)).contains(a) || rest.contains(a) {
            rest
        } else {
            rest.push(a)
        }
    }
}

fn strings_contain(v: &Vec<String>, x: &[char]) -> (r: bool)
    ensures
        r == text::string_views(v@).contains(x@),
{
    let ghost sv = text::string_views(v@);
    let mut i: usize = 0;
    while i < v.len()
        invariant
            i <= v@.len(),
            sv == text::string_views(v@),
            forall|k: int| 0 <= k < i ==> sv[k] != x@,
        decreases v@.len() - i,
    {
        if text::chars_eq(text::string_chars(&v[i]).as_slice(), x) {
            assert(sv[i as int] == x@);
            return true;
        }
        i += 1;
    }
    false
}

/// The canonical forms of addresses.
fn normalize_all(v: &[String]) -> (r: Vec<String>)
    ensures
        text::string_views(r@) == text::string_views(v@).map_values(|s: Seq<char>| participants::normalized(s)),
{
    let mut r: Vec<String> = Vec::new();
    let mut i: usize = 0;
    while i < v.len()
        invariant
            i <= v@.len(),
            text::string_views(r@) == text::string_views(v@).take(i as int).map_values(|s: Seq<char>| participants::normalized(s)),
        decreases v@.len() - i,
    {
        let n = participants::normalize_email(v[i].as_str());
        let ghost rv = text::string_views(r@);
        let ghost nv = n@;
        r.push(n);
        assert(text::string_views(r@) =~= rv.push(nv));
        assert(text::string_views(v@).take(i + 1) =~= text::string_views(v@).take(i as int).push(v@[i as int]@));
        assert(text::string_views(r@) =~= text::string_views(v@).take(i + 1).map_values(|s: Seq<char>| participants::normalized(s)));
        i += 1;
    }
    assert(text::string_views(v@).take(v@.len() as int) =~= text::string_views(v@));
    r
}

/// The recipients that join the trust network (see [`fresh_recipients`]).
pub fn recipient_emails(to: &[String], cc: &[String], self_emails: &[String]) -> (r: Vec<String>)
    ensures
        text::string_views(r@) == fresh_recipients(text::string_views(to@) + text::string_views(cc@), text::string_views(self_emails@)),
{
    let ghost all = text::string_views(to@) + text::string_views(cc@);
    let ghost selfs = text::string_views(self_emails@);
    let selfs_n = normalize_all(self_emails);
    let mut addrs = copy_strings(to);
    let mut j: usize = 0;
    while j < cc.len()
        invariant
            j <= cc@.len(),
            text::string_views(addrs@) == text::string_views(to@) + text::string_views(cc@).take(j as int),
        decreases cc@.len() - j,
    {
        let ghost av = text::string_views(addrs@);
        let c = cc[j].clone();
        assert(c@ == cc@[j as int]@);
        addrs.push(c);
        assert(text::string_views(addrs@) =~= av.push(cc@[j as int]@));
        assert(text::string_views(cc@).take(j + 1) =~= text::string_views(cc@).take(j as int).push(cc@[j as int]@));
        j += 1;
    }
    assert(text::string_views(cc@).take(cc@.len() as int) =~= text::string_views(cc@));
    let mut r: Vec<String> = Vec::new();
    let mut i: usize = 0;
    let n: usize = addrs.len();
    assert(all.take(0) =~= Seq::<Seq<char>>::empty());
    assert(text::string_views(r@) =~= Seq::<Seq<char>>::empty());
    while i < n
        invariant
            n == addrs@.len(),
            text::string_views(addrs@) == all,
            i <= n,
            all == text::string_views(to@) + text::string_views(cc@),
            text::string_views(selfs_n@) == selfs.map_values(|s: Seq<char>| participants::normalized(s)),
            text::string_views(r@) == fresh_recipients(all.take(i as int), selfs),
        decreases n - i,
    {
        let addr: &String = &addrs[i];
        assert(addr@ == all[i as int]);
        assert(all.take(i + 1).drop_last() =~= all.take(i as int));
        assert(all.take(i + 1).last() == all[i as int]);
        let a = participants::normalize_email(addr.as_str());
        let ac = text::string_chars(&a);
        if !strings_contain(&selfs_n, ac.as_slice()) && !strings_contain(&r, ac.as_slice()) {
            let ghost rv = text::string_views(r@);
            r.push(a);
            assert(text::string_views(r@) =~= rv.push(ac@));
        }
        i += 1;
    }
    assert(all.take(n as int) =~= all);
    r
}

/// The recipients as entities of the account: connections met through the
/// compose view, seen now, sent to once.
pub open spec fn entity_ok(e: NewEntity, account_id: Seq<char>, email: Seq<char>, now: i64) -> bool {
    &&& e.account_id@ == account_id
    &&& e.email@ == email
    &&& e.display_name is None
    &&& e.trust_level@ == "connection"@
    &&& text::opt_view(e.source) == Some("compose"@)
    &&& e.first_seen == now
    &&& e.last_seen == Some(now)
    &&& e.sent_count == Some(1i32)
    &&& e.metadata is None
}

/// The message shown at once: sent by `from`, in the outbox, read, a
/// chat, with its body as the text and the distilled text, processed now,
/// in the conversation of its participants.
pub open spec fn outbox_message_ok(m: NewMessage, d: Draft, selfs: Seq<Seq<char>>, now: i64, placeholder: Seq<char>) -> bool {
    let key = participants::participant_key_of(d.from_email@, text::string_views(d.to@), text::string_views(d.cc@), selfs);
    &&& m.account_id@ == d.account_id@
    &&& m.message_id@ == placeholder
    &&& m.imap_uid == 0
    &&& m.imap_folder@ == "OUTBOX"@
    &&& m.date == now
    &&& m.from_address@ == participants::normalized(d.from_email@)
    &&& text::opt_view(m.from_name) == text::opt_view(d.from_name)
    &&& m.to_addresses@ == digest::json_string_list(text::string_views(d.to@))
    &&& m.cc_addresses@ == digest::json_string_list(text::string_views(d.cc@))
    &&& m.bcc_addresses@ == "[]"@
    &&& text::opt_view(m.subject) == Some(d.subject@)
    &&& text::opt_view(m.body_text) == Some(d.body@)
    &&& m.body_html is None && m.size_bytes is None && !m.has_attachments
    &&& text::opt_view(m.in_reply_to) == text::opt_view(d.in_reply_to)
    &&& m.references_ids@ == digest::json_string_list(text::string_views(d.references@))
    &&& m.imap_flags@ == "[\"Seen\"]"@
    &&& text::opt_view(m.classification) == Some("chat"@)
    &&& !m.is_important
    &&& text::opt_view(m.distilled_text) == Some(d.body@)
    &&& m.processed_at == Some(now)
    &&& m.participant_key@ == key
    &&& m.conversation_id@ == digest::short_digest_id(key)
}

/// The placeholder Message-ID of a message not yet sent.
pub open spec fn placeholder_id(uuid: Seq<char>) -> Seq<char> {
    uuid + ".eddie@local"@
}

fn copy_strings(v: &[String]) -> (r: Vec<String>)
    ensures
        text::string_views(r@) == text::string_views(v@),
{
    let mut r: Vec<String> = Vec::new();
    let mut i: usize = 0;
    while i < v.len()
        invariant
            i <= v@.len(),
            text::string_views(r@) == text::string_views(v@).take(i as int),
        decreases v@.len() - i,
    {
        let ghost rv = text::string_views(r@);
        let c = v[i].clone();
        assert(c@ == v@[i as int]@);
        r.push(c);
        assert(text::string_views(r@) =~= rv.push(v@[i as int]@));
        assert(text::string_views(v@).take(i + 1) =~= text::string_views(v@).take(i as int).push(v@[i as int]@));
        i += 1;
    }
    assert(text::string_views(v@).take(v@.len() as int) =~= text::string_views(v@));
    r
}

/// What sending a draft produces, given the time, the local identifier of
/// the message and a fresh identifier for its placeholder Message-ID: the
/// message shown at once, the recipients as entities, the send action, and
/// the answer to the compose view.
pub fn prepare_send(draft: &Draft, self_emails: &[String], now: i64, db_id: String, uuid: &str) -> (r: ComposedSend)
    ensures
        outbox_message_ok(r.message, *draft, text::string_views(self_emails@), now, placeholder_id(uuid@)),
        r.entities@.len() == fresh_recipients(text::string_views(draft.to@) + text::string_views(draft.cc@), text::string_views(self_emails@)).len(),
        forall|i: int| 0 <= i < r.entities@.len() ==> entity_ok(#[trigger] r.entities@[i], draft.account_id@,
            fresh_recipients(text::string_views(draft.to@) + text::string_views(draft.cc@), text::string_views(self_emails@))[i], now),
        r.action.from@ == draft.from_email@,
        text::opt_view(r.action.from_name) == text::opt_view(draft.from_name),
        text::string_views(r.action.to@) == text::string_views(draft.to@),
        text::string_views(r.action.cc@) == text::string_views(draft.cc@),
        r.action.subject@ == draft.subject@,
        r.action.body@ == draft.body@,
        text::opt_view(r.action.in_reply_to) == text::opt_view(draft.in_reply_to),
        text::string_views(r.action.references@) == text::string_views(draft.references@),
        r.action.message_db_id@ == db_id@,
        r.action.placeholder_message_id@ == placeholder_id(uuid@),
        r.result.message_id@ == db_id@,
        r.result.conversation_id@ == r.message.conversation_id@,
{
    let key = participants::compute_participant_key(draft.from_email.as_str(), draft.to.as_slice(), draft.cc.as_slice(), self_emails);
    let conversation_id = digest::compute_conversation_id(key.as_str());
    let placeholder = text::chars_to_string(text::lit_then(uuid, text::str_chars(".eddie@local").as_slice()).as_slice());
    let message = NewMessage {
        account_id: draft.account_id.clone(),
        message_id: placeholder.clone(),
        imap_uid: 0,
        imap_folder: "OUTBOX".to_string(),
        date: now,
        from_address: participants::normalize_email(draft.from_email.as_str()),
        from_name: text::copy_opt(&draft.from_name),
        to_addresses: digest::to_json_string_list(&draft.to),
        cc_addresses: digest::to_json_string_list(&draft.cc),
        bcc_addresses: "[]".to_string(),
        subject: Some(draft.subject.clone()),
        body_text: Some(draft.body.clone()),
        body_html: None,
        size_bytes: None,
        has_attachments: false,
        in_reply_to: text::copy_opt(&draft.in_reply_to),
        references_ids: digest::to_json_string_list(&draft.references),
        imap_flags: "[\"Seen\"]".to_string(),
        classification: Some("chat".to_string()),
        is_important: false,
        distilled_text: Some(draft.body.clone()),
        processed_at: Some(now),
        participant_key: key,
        conversation_id: conversation_id.clone(),
    };
    let emails = recipient_emails(draft.to.as_slice(), draft.cc.as_slice(), self_emails);
    let ghost fresh = text::string_views(emails@);
    let mut entities: Vec<NewEntity> = Vec::new();
    let mut i: usize = 0;
    while i < emails.len()
        invariant
            i <= emails@.len(),
            fresh == text::string_views(emails@),
            entities@.len() == i,
            forall|k: int| 0 <= k < i ==> entity_ok(#[trigger] entities@[k], draft.account_id@, fresh[k], now),
        decreases emails@.len() - i,
    {
        entities.push(NewEntity {
            account_id: draft.account_id.clone(),
            email: emails[i].clone(),
            display_name: None,
            trust_level: "connection".to_string(),
            source: Some("compose".to_string()),
            first_seen: now,
            last_seen: Some(now),
            sent_count: Some(1),
            metadata: None,
        });
        i += 1;
    }
    let action = SendAction {
        from: draft.from_email.clone(),
        from_name: text::copy_opt(&draft.from_name),
        to: copy_strings(draft.to.as_slice()),
        cc: copy_strings(draft.cc.as_slice()),
        subject: draft.subject.clone(),
        body: draft.body.clone(),
        in_reply_to: text::copy_opt(&draft.in_reply_to),
        references: copy_strings(draft.references.as_slice()),
        message_db_id: db_id.clone(),
        placeholder_message_id: placeholder,
    };
    ComposedSend {
        message,
        entities,
        action,
        result: SendResult { message_id: db_id, conversation_id },
    }
}

/// `chrono::Utc::now().timestamp_millis()`. Nothing is claimed of the
/// result: it depends on the clock.
#[verifier::external_body]
pub(crate) fn now_millis() -> (r: i64) {
    chrono::Utc::now().timestamp_millis()
}

/// What sending a draft produces now, with fresh identifiers for the
/// message and its placeholder Message-ID (see [`prepare_send`]): the time
/// and the identifiers are whatever the clock and the random source gave,
/// the rest is determined by the draft.
pub fn compose_send(draft: &Draft, self_emails: &[String]) -> (r: ComposedSend)
    ensures
        exists|now: i64, uuid: Seq<char>| {
            &&& crate::vcard::uuid_v4_text(uuid)
            &&& outbox_message_ok(r.message, *draft, text::string_views(self_emails@), now, placeholder_id(uuid))
            &&& r.action.placeholder_message_id@ == placeholder_id(uuid)
            &&& forall|i: int| 0 <= i < r.entities@.len() ==> entity_ok(#[trigger] r.entities@[i], draft.account_id@,
                fresh_recipients(text::string_views(draft.to@) + text::string_views(draft.cc@), text::string_views(self_emails@))[i], now)
        },
        r.entities@.len() == fresh_recipients(text::string_views(draft.to@) + text::string_views(draft.cc@), text::string_views(self_emails@)).len(),
        r.action.from@ == draft.from_email@,
        text::opt_view(r.action.from_name) == text::opt_view(draft.from_name),
        text::string_views(r.action.to@) == text::string_views(draft.to@),
        text::string_views(r.action.cc@) == text::string_views(draft.cc@),
        r.action.subject@ == draft.subject@,
        r.action.body@ == draft.body@,
        text::opt_view(r.action.in_reply_to) == text::opt_view(draft.in_reply_to),
        text::string_views(r.action.references@) == text::string_views(draft.references@),
        crate::vcard::uuid_v4_text(r.action.message_db_id@),
        r.result.message_id@ == r.action.message_db_id@,
        r.result.conversation_id@ == r.message.conversation_id@,
{
    let now = now_millis();
    let db_id = crate::vcard::new_uuid_string();
    let uuid = crate::vcard::new_uuid_string();
    prepare_send(draft, self_emails, now, db_id, uuid.as_str())
}

} // verus!
