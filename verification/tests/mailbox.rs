use eddie::mailbox::{connect_error, extract_message_id, find_sent_folder, folder_listing, format_address, is_sent_folder_name, listing_error};
use eddie::mime::EddieError;

#[test]
fn sent_folders_in_several_languages() {
    assert!(is_sent_folder_name("Sent Mail"));
    assert!(is_sent_folder_name("[Gmail]/Sent Mail"));
    assert!(is_sent_folder_name("Éléments envoyés"));
    assert!(is_sent_folder_name("Gesendete Elemente"));
    assert!(is_sent_folder_name("Enviados"));
    assert!(is_sent_folder_name("Messaggi inviati"));
    assert!(!is_sent_folder_name("Posta inviata"));
    assert!(!is_sent_folder_name("INBOX"));
    let folders = vec![folder_listing("INBOX", ""), folder_listing("Drafts", "d"), folder_listing("Sent", ""), folder_listing("Sent2", "")];
    assert_eq!(find_sent_folder(&folders), Some("Sent".to_string()));
    assert_eq!(folders[1].desc.as_deref(), Some("d"));
    assert_eq!(folders[0].desc, None);
    assert_eq!(find_sent_folder(&folders[..2]), None);
}

#[test]
fn connection_failures_by_kind() {
    assert!(matches!(connect_error("Operation TIMED OUT", "m"), EddieError::Network(ref s) if s == "Connection timeout: m"));
    assert!(matches!(connect_error("connection refused", "m"), EddieError::Network(ref s) if s == "Connection error: m"));
    assert!(matches!(connect_error("LOGIN failed", "m"), EddieError::Auth(ref s) if s == "Authentication error: m"));
    assert!(matches!(connect_error("cannot resolve host", "m"), EddieError::Network(ref s) if s == "DNS resolution error: m"));
    assert!(matches!(connect_error("bad certificate", "m"), EddieError::Network(ref s) if s == "TLS/SSL error: m"));
    assert!(matches!(connect_error("weird", "m"), EddieError::Backend(ref s) if s == "m"));
    assert!(matches!(listing_error("login failed", "m"), EddieError::Backend(ref s) if s == "m"));
    assert!(matches!(listing_error("Connection reset", "m"), EddieError::Network(ref s) if s == "Connection error: m"));
}

#[test]
fn addresses_as_shown() {
    assert_eq!(format_address(Some("Alice"), Some("a@x.com")), "Alice <a@x.com>");
    assert_eq!(format_address(None, Some("a@x.com")), "a@x.com");
    assert_eq!(format_address(Some("Alice"), None), "Alice <>");
    assert_eq!(format_address(None, None), "");
}

#[test]
fn message_id_read_from_the_header_block() {
    let raw = b"From: a@x.com\r\nMESSAGE-ID:   <abc@x.com>  \r\nSubject: s\r\n\r\nbody";
    assert_eq!(extract_message_id(raw), Some("<abc@x.com>".to_string()));
    let in_body = b"From: a@x.com\r\n\r\nMessage-ID: <late@x.com>\r\n";
    assert_eq!(extract_message_id(in_body), None);
}

use eddie::mailbox::{chat_message, listed_envelope, Attachment, ParsedAddress, ParsedMessage};

fn addr(name: Option<&str>, a: &str) -> ParsedAddress {
    ParsedAddress { name: name.map(|s| s.to_string()), address: Some(a.to_string()) }
}

#[test]
fn fetched_message_as_shown() {
    let parsed = ParsedMessage {
        from: vec![addr(Some("Alice"), "a@x.com"), addr(None, "b@x.com")],
        to: vec![addr(None, "me@x.com")],
        cc: vec![],
        subject: None,
        date: Some("2024-01-01T00:00:00+00:00".to_string()),
        message_id: Some("<m@x>".to_string()),
        in_reply_to: None,
        headers: vec![("Subject".to_string(), String::new())],
        text_body: Some("hi".to_string()),
        html_body: None,
    };
    let att = vec![Attachment { filename: Some("a.pdf".to_string()), mime_type: "application/pdf".to_string(), size: 3 }];
    let m = chat_message("42", parsed, att);
    assert_eq!(m.id, "42");
    assert_eq!(m.envelope.from, "Alice <a@x.com>");
    assert_eq!(m.envelope.to, vec!["me@x.com".to_string()]);
    assert_eq!(m.envelope.subject, "");
    assert!(m.envelope.has_attachment);
    assert!(m.envelope.flags.is_empty());
    assert_eq!(m.attachments.len(), 1);
}

#[test]
fn listed_envelope_without_message_id() {
    let e = listed_envelope("7".to_string(), "", None, "a".to_string(), "b, c".to_string(), vec![], "s".to_string(), "d".to_string(), vec![], false);
    assert_eq!(e.message_id, None);
    assert_eq!(e.to, vec!["b, c".to_string()]);
    let f = listed_envelope("7".to_string(), "<x@y>", None, "a".to_string(), "b".to_string(), vec![], "s".to_string(), "d".to_string(), vec![], false);
    assert_eq!(f.message_id.as_deref(), Some("<x@y>"));
}
