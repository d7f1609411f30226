use eddie::compose::{compose_send, prepare_send, recipient_emails, Draft};
use eddie::digest::compute_conversation_id;

fn draft() -> Draft {
    Draft {
        account_id: "me@example.com".to_string(),
        from_email: "Me@Example.com".to_string(),
        from_name: Some("Me".to_string()),
        to: vec!["Bob@Example.com".to_string(), "me@example.com".to_string()],
        cc: vec!["bob@example.com".to_string(), "j.doe@gmail.com".to_string()],
        subject: "Hi".to_string(),
        body: "Hello there".to_string(),
        in_reply_to: Some("<p@x>".to_string()),
        references: vec!["<r@x>".to_string()],
    }
}

#[test]
fn outbox_message_is_shown_at_once() {
    let selfs = vec!["me@example.com".to_string()];
    let c = prepare_send(&draft(), &selfs, 1_700_000_000_000, "db-1".to_string(), "u-1");
    let m = &c.message;
    assert_eq!(m.message_id, "u-1.eddie@local");
    assert_eq!(m.imap_folder, "OUTBOX");
    assert_eq!(m.imap_uid, 0);
    assert_eq!(m.date, 1_700_000_000_000);
    assert_eq!(m.from_address, "me@example.com");
    assert_eq!(m.to_addresses, "[\"Bob@Example.com\",\"me@example.com\"]");
    assert_eq!(m.cc_addresses, "[\"bob@example.com\",\"j.doe@gmail.com\"]");
    assert_eq!(m.bcc_addresses, "[]");
    assert_eq!(m.references_ids, "[\"<r@x>\"]");
    assert_eq!(m.imap_flags, "[\"Seen\"]");
    assert_eq!(m.classification.as_deref(), Some("chat"));
    assert_eq!(m.distilled_text.as_deref(), Some("Hello there"));
    assert_eq!(m.processed_at, Some(1_700_000_000_000));
    assert_eq!(m.participant_key, "bob@example.com\njdoe@gmail.com");
    assert_eq!(m.conversation_id, compute_conversation_id("bob@example.com\njdoe@gmail.com"));
    assert_eq!(c.result.message_id, "db-1");
    assert_eq!(c.result.conversation_id, m.conversation_id);
    assert_eq!(c.action.placeholder_message_id, "u-1.eddie@local");
    assert_eq!(c.action.message_db_id, "db-1");
    assert_eq!(c.action.to, draft().to);
}

#[test]
fn recipients_join_the_trust_network_once() {
    let selfs = vec!["ME@example.com".to_string()];
    let d = draft();
    assert_eq!(recipient_emails(&d.to, &d.cc, &selfs), vec!["bob@example.com".to_string(), "jdoe@gmail.com".to_string()]);
    let c = prepare_send(&d, &selfs, 5, "db".to_string(), "u");
    assert_eq!(c.entities.len(), 2);
    assert_eq!(c.entities[0].email, "bob@example.com");
    assert_eq!(c.entities[0].trust_level, "connection");
    assert_eq!(c.entities[0].source.as_deref(), Some("compose"));
    assert_eq!(c.entities[0].first_seen, 5);
    assert_eq!(c.entities[0].last_seen, Some(5));
    assert_eq!(c.entities[0].sent_count, Some(1));
}

#[test]
fn sending_now_uses_fresh_identifiers() {
    let selfs = vec!["me@example.com".to_string()];
    let c = compose_send(&draft(), &selfs);
    assert_eq!(c.action.message_db_id.len(), 36);
    assert_eq!(c.result.message_id, c.action.message_db_id);
    assert!(c.message.message_id.ends_with(".eddie@local"));
    assert_eq!(c.message.message_id.len(), 36 + ".eddie@local".len());
    assert_eq!(c.action.placeholder_message_id, c.message.message_id);
    assert_ne!(c.action.message_db_id, c.message.message_id[..36].to_string());
    assert_eq!(c.entities.len(), 2);
    assert_eq!(c.result.conversation_id, compute_conversation_id("bob@example.com\njdoe@gmail.com"));
    assert!(c.message.date > 1_600_000_000_000);
    assert_eq!(c.action.subject, "Hi");
}
