use eddie::batches::{
    attach_references, batch_body, body_fetch_query, count_recipients, envelope_fetch_query, group_by_part,
    historical_uids, references_fetch_query, sent_batch, sent_search_query, sort_uids, text_part_of, uid_batches,
    uid_list,
};
use eddie::envelope::Envelope;
use eddie::mime::{BodyPart, ContentEncoding};

#[test]
fn historical_uids_newest_first_below_cursor() {
    assert_eq!(historical_uids(&[5, 1, 9, 3, 7], Some(7)), vec![5, 3, 1]);
    assert_eq!(historical_uids(&[5, 1, 9, 3, 7], None), vec![9, 7, 5, 3, 1]);
    assert_eq!(historical_uids(&[2, 4], Some(1)), Vec::<u32>::new());
}

#[test]
fn sorting_keeps_every_uid() {
    assert_eq!(sort_uids(&[3, 1, 3, 2]), vec![1, 2, 3, 3]);
}

#[test]
fn batches_cover_the_uids_in_order() {
    let uids = [9, 8, 7, 6, 5];
    assert_eq!(uid_batches(&uids, 2, None), vec![vec![9, 8], vec![7, 6], vec![5]]);
    assert_eq!(uid_batches(&uids, 2, Some(2)), vec![vec![9, 8], vec![7, 6]]);
    // The limit is checked after a batch: a limit of zero still runs one.
    assert_eq!(uid_batches(&uids, 2, Some(0)), vec![vec![9, 8]]);
    assert_eq!(uid_batches(&uids, 10, Some(3)), vec![vec![9, 8, 7, 6, 5]]);
    assert_eq!(uid_batches(&[], 3, None), Vec::<Vec<u32>>::new());
}

#[test]
fn uid_sets_and_queries() {
    assert_eq!(uid_list(&[12, 7, 100]), "12,7,100");
    assert_eq!(uid_list(&[]), "");
    assert_eq!(envelope_fetch_query(true), "(UID FLAGS ENVELOPE BODYSTRUCTURE X-GM-LABELS)");
    assert_eq!(envelope_fetch_query(false), "(UID FLAGS ENVELOPE BODYSTRUCTURE)");
    assert_eq!(references_fetch_query(), "(UID BODY.PEEK[HEADER.FIELDS (References)])");
    assert_eq!(body_fetch_query(&[1, 2]), "(UID BODY.PEEK[1.2])");
}

fn text(subtype: &str, enc: ContentEncoding) -> BodyPart {
    BodyPart::Text { ty: "TEXT".to_string(), subtype: subtype.to_string(), disposition: None, encoding: enc }
}

#[test]
fn plain_text_is_preferred_to_html() {
    let body = BodyPart::Multipart {
        ty: "MULTIPART".to_string(),
        subtype: "ALTERNATIVE".to_string(),
        disposition: None,
        bodies: vec![text("HTML", ContentEncoding::Base64), text("PLAIN", ContentEncoding::QuotedPrintable)],
    };
    assert_eq!(text_part_of(&body), Some((vec![2], false, "quoted-printable".to_string())));
    let html_only = text("html", ContentEncoding::SevenBit);
    assert_eq!(text_part_of(&html_only), Some((vec![1], true, "7bit".to_string())));
    let image = BodyPart::Basic { ty: "IMAGE".to_string(), subtype: "PNG".to_string(), disposition: None, encoding: ContentEncoding::Base64 };
    assert_eq!(text_part_of(&image), None);
}

#[test]
fn uids_grouped_by_part_number() {
    let items = vec![(10, vec![1]), (11, vec![1, 2]), (12, vec![1]), (13, vec![2])];
    assert_eq!(
        group_by_part(&items),
        vec![(vec![1], vec![10, 12]), (vec![1, 2], vec![11]), (vec![2], vec![13])]
    );
}

#[test]
fn body_decoded_with_the_part_encoding() {
    let parts = vec![(4u32, vec![1u32], true, "base64".to_string()), (5, vec![1], false, "7bit".to_string())];
    assert_eq!(batch_body(&parts, 4, b"aGVs\r\nbG8="), (4, "hello".to_string(), true));
    assert_eq!(batch_body(&parts, 5, b"plain"), (5, "plain".to_string(), false));
    assert_eq!(batch_body(&parts, 6, b"raw"), (6, "raw".to_string(), false));
}

fn envelope(uid: u32) -> Envelope {
    Envelope {
        uid,
        message_id: format!("<{}@x>", uid),
        date: String::new(),
        subject: String::new(),
        from_address: String::new(),
        from_name: None,
        to_addresses: vec![],
        cc_addresses: vec![],
        imap_flags: vec![],
        size_bytes: None,
        has_attachments: false,
        gmail_labels: vec![],
        in_reply_to: None,
        references: vec![],
        classification_headers: vec![],
    }
}

#[test]
fn references_go_to_the_envelope_of_their_uid() {
    let mut envs = vec![envelope(1), envelope(2)];
    attach_references(&mut envs, 2, vec!["<a@x>".to_string()]);
    assert_eq!(envs[0].references, Vec::<String>::new());
    assert_eq!(envs[1].references, vec!["<a@x>".to_string()]);
    attach_references(&mut envs, 9, vec!["<b@x>".to_string()]);
    assert_eq!(envs[1].references, vec!["<a@x>".to_string()]);
}

#[test]
fn sent_scan_batches() {
    assert_eq!(sent_search_query(None), "ALL");
    assert_eq!(sent_search_query(Some(41)), "UID 42:*");
    // The server may return the cursor itself; it is left out.
    assert_eq!(sent_batch(&[44, 41, 43, 42], Some(41), 2), Some((vec![42, 43], 43, 1)));
    assert_eq!(sent_batch(&[44, 41, 43, 42], None, 10), Some((vec![41, 42, 43, 44], 44, 0)));
    assert_eq!(sent_batch(&[41], Some(41), 2), None);
}

#[test]
fn recipients_counted_across_messages() {
    let h1 = b"To: Alice <ALICE@example.com>, bob@example.com\r\nCc: carol@example.com\r\n".to_vec();
    let h2 = b"To: alice@example.com\r\nSubject: x\r\n".to_vec();
    let counts = count_recipients(&[Some(h1), None, Some(h2)]);
    assert_eq!(
        counts,
        vec![("alice@example.com".to_string(), 2), ("bob@example.com".to_string(), 1), ("carol@example.com".to_string(), 1)]
    );
}

#[test]
fn sent_scan_resumes_after_the_last_batch() {
    let found = [17, 3, 12, 8, 30, 5];
    let (first, max, rest) = sent_batch(&found, None, 4).unwrap();
    assert_eq!(first, vec![3, 5, 8, 12]);
    assert_eq!((max, rest), (12, 2));
    let (second, max2, rest2) = sent_batch(&found, Some(max), 4).unwrap();
    assert_eq!(second, vec![17, 30]);
    assert_eq!((max2, rest2), (30, 0));
    assert_eq!(sent_batch(&found, Some(max2), 4), None);
}

#[test]
fn historical_batches_lay_end_to_end() {
    let uids = historical_uids(&[4, 9, 1, 7, 2, 8, 3], Some(9));
    let batches = uid_batches(&uids, 3, None);
    let joined: Vec<u32> = batches.concat();
    assert_eq!(joined, uids);
    assert!(batches.iter().all(|b| !b.is_empty() && b.len() <= 3));
}
