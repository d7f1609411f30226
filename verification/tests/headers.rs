use eddie::headers::{parse_classification_headers, parse_recipient_headers, reassemble_folded_headers, try_parse_references_value};
use eddie::mime::{decode_body, has_attachments, BodyPart, ContentEncoding};

#[test]
fn folded_headers_are_joined() {
    let h = reassemble_folded_headers("To: a@x.com,\r\n b@x.com\r\nSubject: hi\r\n\tthere\r\n");
    assert_eq!(h, vec!["To: a@x.com, b@x.com".to_string(), "Subject: hi there".to_string()]);
}

#[test]
fn recipients_of_to_cc_and_bcc() {
    let r = parse_recipient_headers("To: Team: a@x.com, B <B@X.com>;\r\nCc: c@x.com\r\nFrom: me@x.com\r\n");
    assert_eq!(r, vec!["a@x.com".to_string(), "b@x.com".to_string(), "c@x.com".to_string()]);
}

#[test]
fn classification_headers_by_lowercase_name() {
    let raw = b"List-Unsubscribe: <mailto:u@x.com>\r\nX-Other: 1\r\nPrecedence: bulk\r\n";
    let h = parse_classification_headers(raw);
    assert!(h.contains(&("list-unsubscribe".to_string(), "<mailto:u@x.com>".to_string())));
    assert!(h.contains(&("precedence".to_string(), "bulk".to_string())));
    assert!(!h.iter().any(|(k, _)| k == "x-other"));
}

#[test]
fn references_are_the_bracketed_ids() {
    let r = try_parse_references_value("References: <a@x>\r\n <b@x> junk <c@x>\r\n\r\n").unwrap();
    assert_eq!(r, vec!["a@x".to_string(), "b@x".to_string(), "c@x".to_string()]);
}

#[test]
fn bodies_decoded_by_transfer_encoding() {
    assert_eq!(decode_body(b"caf=C3=A9 =\r\nau lait", "quoted-printable").ok().unwrap(), "café au lait");
    assert_eq!(decode_body(b"aGVs bG8=", "base64").ok().unwrap(), "hello");
    assert_eq!(decode_body(b"!!", "base64").ok().unwrap(), "!!");
    assert_eq!(decode_body(b"plain", "8bit").ok().unwrap(), "plain");
}

#[test]
fn attachments_are_non_text_parts_or_marked_ones() {
    let text = BodyPart::Text { ty: "TEXT".to_string(), subtype: "PLAIN".to_string(), disposition: None, encoding: ContentEncoding::SevenBit };
    assert!(!has_attachments(&text));
    let pdf = BodyPart::Basic { ty: "APPLICATION".to_string(), subtype: "PDF".to_string(), disposition: None, encoding: ContentEncoding::Base64 };
    let mixed = BodyPart::Multipart { ty: "MULTIPART".to_string(), subtype: "MIXED".to_string(), disposition: None, bodies: vec![text, pdf] };
    assert!(has_attachments(&mixed));
    let marked_text = BodyPart::Text { ty: "TEXT".to_string(), subtype: "PLAIN".to_string(), disposition: Some("ATTACHMENT".to_string()), encoding: ContentEncoding::SevenBit };
    assert!(!has_attachments(&marked_text));
    let marked = BodyPart::Basic { ty: "TEXT".to_string(), subtype: "CSV".to_string(), disposition: Some("Attachment".to_string()), encoding: ContentEncoding::Base64 };
    assert!(has_attachments(&marked));
    let inline_text = BodyPart::Basic { ty: "text".to_string(), subtype: "calendar".to_string(), disposition: None, encoding: ContentEncoding::Base64 };
    assert!(!has_attachments(&inline_text));
}
