use eddie::digest::compute_conversation_id;
use eddie::envelope::{
    envelope_to_new_message, extract_addresses, flags_marked_seen, is_unread, parse_date, parse_envelope,
    parse_stored_flags, prepare_messages, FetchData, RawAddress, RawEnvelope,
};
use eddie::mime::{BodyPart, ContentEncoding};
use eddie::participants::compute_participant_key;

fn addr(name: Option<&str>, mailbox: &str, host: &str) -> RawAddress {
    RawAddress {
        name: name.map(|n| n.as_bytes().to_vec()),
        mailbox: Some(mailbox.as_bytes().to_vec()),
        host: Some(host.as_bytes().to_vec()),
    }
}

fn sample_fetch() -> FetchData {
    FetchData {
        uid: Some(42),
        flags: vec!["\\Seen".to_string(), "\\Answered".to_string()],
        size: Some(1234),
        envelope: Some(RawEnvelope {
            date: Some(b"Mon, 1 Jan 2024 00:00:00 +0000".to_vec()),
            subject: Some(b"=?UTF-8?Q?Caf=C3=A9?=".to_vec()),
            from: Some(vec![addr(Some("Alice"), "alice", "example.com")]),
            to: Some(vec![addr(None, "bob", "example.com"), addr(None, "carol", "example.org")]),
            cc: None,
            in_reply_to: Some(b"<parent@example.com>".to_vec()),
            message_id: Some(b"<m1@example.com>".to_vec()),
        }),
        body_structure: Some(BodyPart::Basic {
            ty: "APPLICATION".to_string(),
            subtype: "PDF".to_string(),
            disposition: None,
            encoding: ContentEncoding::Base64,
        }),
        gmail_labels: Some(vec!["\\Inbox".to_string(), "Work".to_string()]),
    }
}

#[test]
fn fetch_response_becomes_envelope() {
    let e = parse_envelope(&sample_fetch()).unwrap();
    assert_eq!(e.uid, 42);
    assert_eq!(e.message_id, "m1@example.com");
    assert_eq!(e.date, "Mon, 1 Jan 2024 00:00:00 +0000");
    assert_eq!(e.subject, "Café");
    assert_eq!(e.from_address, "alice@example.com");
    assert_eq!(e.from_name, Some("Alice".to_string()));
    assert_eq!(e.to_addresses, vec!["bob@example.com".to_string(), "carol@example.org".to_string()]);
    assert!(e.cc_addresses.is_empty());
    assert_eq!(e.imap_flags, vec!["\\Seen".to_string(), "\\Answered".to_string()]);
    assert_eq!(e.size_bytes, Some(1234));
    assert!(e.has_attachments);
    assert_eq!(e.gmail_labels, vec!["Inbox".to_string(), "Work".to_string()]);
    assert_eq!(e.in_reply_to, Some("parent@example.com".to_string()));
    assert!(e.references.is_empty());
    assert!(e.classification_headers.is_empty());
}

#[test]
fn fetch_without_uid_or_envelope_gives_nothing() {
    let mut f = sample_fetch();
    f.uid = None;
    assert!(parse_envelope(&f).is_none());
    let mut g = sample_fetch();
    g.envelope = None;
    assert!(parse_envelope(&g).is_none());
}

#[test]
fn empty_in_reply_to_is_none() {
    let mut f = sample_fetch();
    if let Some(env) = f.envelope.as_mut() {
        env.in_reply_to = Some(b"<>".to_vec());
        env.from = None;
    }
    let e = parse_envelope(&f).unwrap();
    assert_eq!(e.in_reply_to, None);
    assert_eq!(e.from_address, "");
    assert_eq!(e.from_name, None);
}

#[test]
fn addresses_are_mailbox_at_host() {
    let list = Some(vec![addr(None, "x", "y.z"), RawAddress { name: None, mailbox: None, host: None }]);
    assert_eq!(extract_addresses(&list), vec!["x@y.z".to_string(), "@".to_string()]);
    assert!(extract_addresses(&None).is_empty());
}

#[test]
fn dates_in_rfc2822_or_internal_form() {
    assert_eq!(parse_date("Mon, 1 Jan 2024 00:00:00 +0000"), 1_704_067_200_000);
    assert_eq!(parse_date("01-Jan-2024 01:00:00 +0100"), 1_704_067_200_000);
    assert_eq!(parse_date("not a date"), 0);
}

#[test]
fn envelope_becomes_message_row() {
    let e = parse_envelope(&sample_fetch()).unwrap();
    let selfs = vec!["bob@example.com".to_string()];
    let m = envelope_to_new_message(&e, "acct", "INBOX", &selfs);
    let key = compute_participant_key("alice@example.com", &e.to_addresses, &[], &selfs);
    assert_eq!(m.account_id, "acct");
    assert_eq!(m.message_id, "m1@example.com");
    assert_eq!(m.imap_uid, 42);
    assert_eq!(m.imap_folder, "INBOX");
    assert_eq!(m.date, 1_704_067_200_000);
    assert_eq!(m.from_address, "alice@example.com");
    assert_eq!(m.to_addresses, "[\"bob@example.com\",\"carol@example.org\"]");
    assert_eq!(m.cc_addresses, "[]");
    assert_eq!(m.bcc_addresses, "[]");
    assert_eq!(m.subject, Some("Café".to_string()));
    assert_eq!(m.imap_flags, "[\"\\\\Answered\",\"\\\\Seen\"]");
    assert_eq!(m.references_ids, "[]");
    assert!(m.has_attachments);
    assert_eq!(m.classification, None);
    assert_eq!(m.participant_key, key);
    assert_eq!(m.participant_key, "alice@example.com\ncarol@example.org");
    assert_eq!(m.conversation_id, compute_conversation_id(&key));
    let again = parse_envelope(&sample_fetch()).unwrap();
    let rows = prepare_messages("acct", "INBOX", &[e, again], &selfs);
    assert_eq!(rows.len(), 2);
    assert_eq!(rows[1].imap_uid, 42);
}

#[test]
fn stored_flags_and_marking_seen() {
    assert_eq!(parse_stored_flags("[\"Seen\",\"Flagged\"]"), vec!["Seen".to_string(), "Flagged".to_string()]);
    assert!(parse_stored_flags("[\"Seen\",1]").is_empty());
    assert!(parse_stored_flags("not json").is_empty());
    assert!(!is_unread("[\"Seen\"]"));
    assert!(is_unread("[\"\\\\Seen\"]"));
    assert!(is_unread("[]"));
    assert!(is_unread("garbage"));
    assert_eq!(flags_marked_seen("[\"Seen\"]"), None);
    let marked = flags_marked_seen("[\"Flagged\"]").unwrap();
    assert_eq!(marked, "[\"Flagged\",\"Seen\"]");
    assert!(!is_unread(&marked));
    assert_eq!(flags_marked_seen("oops").unwrap(), "[\"Seen\"]");
}
