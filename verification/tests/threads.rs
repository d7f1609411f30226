use eddie::participants::AddressRule;
use eddie::threads::{assign_threads_with, ThreadMsg};

fn msg(db: &str, id: &str, reply: Option<&str>, refs: &[&str], date: i64, from: &str, to: &[&str]) -> ThreadMsg {
    ThreadMsg {
        db_id: db.to_string(),
        message_id: id.to_string(),
        in_reply_to: reply.map(|s| s.to_string()),
        references: refs.iter().map(|s| s.to_string()).collect(),
        date,
        from_address: from.to_string(),
        to_addresses: to.iter().map(|s| s.to_string()).collect(),
        cc_addresses: vec![],
    }
}

#[test]
fn replies_and_references_share_the_thread() {
    let msgs = vec![
        msg("1", "<a@x>", None, &[], 1, "alice@x.com", &["me@x.com"]),
        msg("2", "<b@x>", Some("<a@x>"), &[], 2, "me@x.com", &["alice@x.com"]),
        msg("3", "<c@x>", None, &["<a@x>"], 3, "bob@x.com", &["me@x.com"]),
        msg("4", "<d@x>", None, &[], 4, "carol@x.com", &["me@x.com"]),
    ];
    let r = assign_threads_with(&msgs, &["me@x.com".to_string()], AddressRule::Normalized, false);
    assert_eq!(r.len(), 4);
    assert_eq!(r[0].thread_id, r[1].thread_id);
    assert_eq!(r[0].thread_id, r[2].thread_id);
    assert_ne!(r[0].thread_id, r[3].thread_id);
    assert_eq!(r[1].db_id, "2");
}
