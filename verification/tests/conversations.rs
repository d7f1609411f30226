use eddie::conversations::{aggregate_conversations, build_conversation, carried_preferences, ConversationRow, ConversationSummary};
use eddie::participants::AddressRule;

fn row(conv: &str, date: i64, from: &str, unread: bool, class: Option<&str>) -> ConversationRow {
    ConversationRow {
        conversation_id: conv.to_string(),
        participant_key: format!("key-{}", conv),
        date,
        preview: Some(format!("preview {}", date)),
        from_address: from.to_string(),
        classification: class.map(|s| s.to_string()),
        is_important: 0,
        unread,
        is_trusted: 0,
    }
}

#[test]
fn every_row_is_counted_once() {
    let rows = vec![
        row("c1", 30, "Bob@x.com", true, Some("chat")),
        row("c1", 20, "me@x.com", false, None),
        row("c1", 10, "alice@x.com", true, None),
        row("c2", 25, "carol@x.com", false, None),
    ];
    let out = aggregate_conversations(&rows, &["me@x.com".to_string()]);
    assert_eq!(out.len(), 2);
    let total: i32 = out.iter().map(|s| s.total_count).sum();
    assert_eq!(total, 4);
    assert_eq!(out[0].id, "c1");
    assert_eq!(out[0].total_count, 3);
    assert_eq!(out[0].unread_count, 2);
    assert_eq!(out[0].last_message_date, 30);
    assert!(out[0].has_chat);
    assert_eq!(out[0].initial_sender_email.as_deref(), Some("alice@x.com"));
    assert_eq!(out[1].total_count, 1);
    assert!(!out[1].has_chat);
}

fn summary(key: &str, initial: Option<&str>, has_chat: bool, has_trusted: bool) -> ConversationSummary {
    ConversationSummary {
        id: "cid".to_string(),
        participant_key: key.to_string(),
        last_message_date: 99,
        last_message_preview: Some("hello".to_string()),
        has_chat,
        has_trusted,
        has_important: true,
        unread_count: 1,
        total_count: 2,
        initial_sender_email: initial.map(|s| s.to_string()),
    }
}

#[test]
fn records_classified_and_named() {
    let s = summary("alice@x.com\nbob@x.com", Some("alice@x.com"), true, false);
    let names = vec![
        ("bob@x.com".to_string(), "Bobby".to_string()),
        ("bob@x.com".to_string(), "Bob".to_string()),
    ];
    let c = build_conversation(&s, AddressRule::Lowercase, &[], &names, &[], &[]).unwrap();
    assert_eq!(c.id, "cid");
    assert_eq!(c.classification, "others");
    assert_eq!(c.participant_names, "{\"alice@x.com\":\"alice@x.com\",\"bob@x.com\":\"Bob\"}");
    assert_eq!(c.last_message_date, 99);
    assert_eq!(c.unread_count, 1);
    assert_eq!(c.total_count, 2);
    assert!(c.is_important);
    let trusted = build_conversation(&s, AddressRule::Lowercase, &[], &names, &[], &["bob@x.com".to_string()]).unwrap();
    assert_eq!(trusted.classification, "connections");
    let quiet = summary("news@x.com", None, false, true);
    assert_eq!(build_conversation(&quiet, AddressRule::Lowercase, &[], &[], &[], &[]).unwrap().classification, "automated");
}

#[test]
fn own_addresses_left_out_of_names() {
    let s = summary("Me@X.com\nzed@x.com", None, true, true);
    let c = build_conversation(&s, AddressRule::Lowercase, &["me@x.com".to_string()], &[], &[], &[]).unwrap();
    assert_eq!(c.participant_names, "{\"zed@x.com\":\"zed@x.com\"}");
    assert_eq!(c.classification, "connections");
}

#[test]
fn blocked_conversations_are_dropped() {
    let blocked = vec!["spam@x.com".to_string()];
    let one = summary("spam@x.com", None, true, false);
    assert!(build_conversation(&one, AddressRule::Lowercase, &[], &[], &blocked, &[]).is_none());
    let group = summary("a@x.com\nspam@x.com", Some("spam@x.com"), true, false);
    assert!(build_conversation(&group, AddressRule::Lowercase, &[], &[], &blocked, &[]).is_none());
    let started_elsewhere = summary("a@x.com\nspam@x.com", Some("a@x.com"), true, false);
    assert!(build_conversation(&started_elsewhere, AddressRule::Lowercase, &[], &[], &blocked, &[]).is_some());
    assert!(build_conversation(&one, AddressRule::Lowercase, &[], &[], &[], &[]).is_some());
}

#[test]
fn preferences_survive_a_rebuild() {
    let previous = vec![
        ("c1".to_string(), true, false),
        ("c2".to_string(), false, true),
        ("c1".to_string(), false, true),
    ];
    assert_eq!(carried_preferences(&previous, "c1"), (false, true));
    assert_eq!(carried_preferences(&previous, "c2"), (false, true));
    assert_eq!(carried_preferences(&previous, "c3"), (false, false));
}
