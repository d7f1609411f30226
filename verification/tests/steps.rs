use eddie::batches::{historical_after_batch, historical_start, uid_batches, HistoricalAction};
use eddie::discovery::{imap_probe_candidates, probe_next, probe_outcome, smtp_probe_candidates, ProbeStep, Security};
use eddie::mailbox::{fetched_message, Attachment, ParsedAddress, ParsedMessage};
use eddie::mime::EddieError;
use eddie::skills::{build_modifier_clause, six_months_before, Modifiers};

#[test]
fn historical_fetch_runs_batches_until_refused() {
    assert!(matches!(historical_start(0, 0), HistoricalAction::Done(Ok(0))));
    let batches = uid_batches(&[9, 8, 7, 6, 5], 2, None);
    assert_eq!(batches.len(), 3);
    assert!(matches!(historical_start(5, batches.len()), HistoricalAction::Batch(0)));
    assert!(matches!(historical_after_batch(0, 3, Ok(()), 5), HistoricalAction::Batch(1)));
    assert!(matches!(historical_after_batch(2, 3, Ok(()), 5), HistoricalAction::Done(Ok(5))));
    match historical_after_batch(1, 3, Err("disk full".to_string()), 5) {
        HistoricalAction::Done(Err(EddieError::Backend(m))) => assert_eq!(m, "disk full"),
        _ => panic!("a refused batch ends the fetch"),
    }
    let limited = uid_batches(&[9, 8, 7, 6, 5], 2, Some(1));
    assert!(matches!(historical_after_batch(0, limited.len(), Ok(()), 5), HistoricalAction::Done(Ok(5))));
}

#[test]
fn probing_stops_at_the_first_answer() {
    assert!(matches!(probe_next(&vec![], 10), ProbeStep::Probe(0)));
    assert!(matches!(probe_next(&vec![false, false], 10), ProbeStep::Probe(2)));
    assert!(matches!(probe_next(&vec![false, true], 10), ProbeStep::Found(1)));
    assert!(matches!(probe_next(&vec![false; 10], 10), ProbeStep::Exhausted));
    let imap = imap_probe_candidates("example.org");
    let smtp = smtp_probe_candidates("example.org");
    let c = probe_outcome(&imap, &vec![false, false, false, true], &smtp, &vec![false, true]).ok().unwrap();
    assert_eq!(c.imap.hostname, "imap.example.org");
    assert_eq!(c.imap.port, 143);
    assert_eq!(c.smtp.hostname, "mail.example.org");
    assert_eq!(c.smtp.port, 465);
    assert_eq!(c.smtp.security, Security::Tls);
    assert_eq!(c.source, "probe");
    let fallback = probe_outcome(&imap, &vec![true], &smtp, &vec![false; 15]).ok().unwrap();
    assert_eq!(fallback.smtp.hostname, "mail.example.org");
    assert_eq!(fallback.smtp.port, 587);
    assert!(probe_outcome(&imap, &vec![false; 10], &smtp, &vec![]).is_err());
}

fn parsed() -> ParsedMessage {
    ParsedMessage {
        from: vec![ParsedAddress { name: Some("Ann".to_string()), address: Some("ann@x.com".to_string()) }],
        to: vec![],
        cc: vec![],
        subject: Some("Hi".to_string()),
        date: None,
        message_id: Some("m@x".to_string()),
        in_reply_to: None,
        headers: vec![],
        text_body: Some("hello".to_string()),
        html_body: None,
    }
}

#[test]
fn a_fetch_without_messages_is_not_found() {
    match fetched_message("42", None) {
        Err(EddieError::MessageNotFound(id)) => assert_eq!(id, "42"),
        _ => panic!("an empty fetch is not found"),
    }
    let att = vec![Attachment { filename: Some("a.pdf".to_string()), mime_type: "application/pdf".to_string(), size: 3 }];
    let m = fetched_message("42", Some((parsed(), att))).ok().unwrap();
    assert_eq!(m.id, "42");
    assert_eq!(m.envelope.id, "42");
    assert!(m.envelope.flags.is_empty());
    assert!(m.envelope.has_attachment);
    assert_eq!(m.attachments.len(), 1);
    assert_eq!(m.envelope.subject, "Hi");
}

#[test]
fn six_months_is_one_hundred_eighty_days() {
    assert_eq!(six_months_before(1_700_000_000_000), 1_700_000_000_000 - 15_552_000_000);
    assert_eq!(six_months_before(0), -15_552_000_000);
    assert_eq!(six_months_before(i64::MIN), 0);
    assert_eq!(six_months_before(-8_334_601_315_200_000 + 15_552_000_000), -8_334_601_315_200_000);
    assert_eq!(six_months_before(-8_334_601_315_200_000 + 15_551_999_999), 0);
    let mut m = Modifiers::from_json("{}");
    m.recent_six_months = true;
    let clause = build_modifier_clause(&m, "acct");
    let cutoff: i64 = clause.trim_start_matches("AND date >= ").parse().unwrap();
    assert!(cutoff > 1_600_000_000_000);
}
