use eddie::classifier::{classify, EmailFields, Verdict};

fn fields(from: &str) -> EmailFields<'_> {
    EmailFields {
        from_address: from,
        subject: "",
        body_text: "",
        body_html: "",
        in_reply_to: None,
        reference_count: 0,
        to_count: 1,
        cc_count: 0,
        imap_folder: "INBOX",
        gmail_labels: vec![],
    }
}

#[test]
fn esp_domain_fires() {
    let f = fields("info@em.mailchimp.com");
    assert!(matches!(classify(&f), Verdict::NotChat { .. }));
}

#[test]
fn noreply_fires() {
    let f = fields("noreply@github.com");
    assert!(matches!(classify(&f), Verdict::NotChat { .. }));
}

#[test]
fn noreply_plus_fires() {
    let f = fields("noreply+abc@example.com");
    assert!(matches!(classify(&f), Verdict::NotChat { .. }));
}

#[test]
fn gmail_promo_fires() {
    let mut f = fields("someone@example.com");
    f.gmail_labels = vec!["CATEGORY_PROMOTIONS".to_string()];
    assert!(matches!(classify(&f), Verdict::NotChat { .. }));
}

#[test]
fn unsubscribe_body_fires() {
    let mut f = fields("updates@company.com");
    f.body_text = "Click here to unsubscribe from this list.";
    assert!(matches!(classify(&f), Verdict::NotChat { .. }));
}

#[test]
fn reply_with_references_is_chat() {
    let mut f = fields("alice@gmail.com");
    f.in_reply_to = Some("<msg123@mail.gmail.com>");
    f.reference_count = 2;
    assert!(matches!(classify(&f), Verdict::Chat { .. }));
}

#[test]
fn reply_only_is_chat() {
    let mut f = fields("bob@example.com");
    f.in_reply_to = Some("<msg456@example.com>");
    assert!(matches!(classify(&f), Verdict::Chat { .. }));
}

#[test]
fn ambiguous_goes_to_llm() {
    let f = fields("bob@company.com");
    assert_eq!(classify(&f), Verdict::Ambiguous);
}

#[test]
fn mass_recipients_fires() {
    let mut f = fields("team@company.com");
    f.to_count = 8;
    assert!(matches!(classify(&f), Verdict::NotChat { .. }));
}

#[test]
fn mailing_list_subject_fires() {
    let mut f = fields("list@groups.example.com");
    f.subject = "[engineering-team] weekly update";
    assert!(matches!(classify(&f), Verdict::NotChat { .. }));
}

#[test]
fn mailing_list_subject_is_ambiguous_when_reply() {
    let mut f = fields("alice@example.com");
    f.subject = "[engineering-team] re: deploy schedule";
    f.in_reply_to = Some("<list-msg@groups.example.com>");
    // The reply rule fires before the subject rule fires
    assert!(matches!(classify(&f), Verdict::Chat { .. }));
}

// ── Exact reasons of each rule ───────────────────────────────────────────────

#[test]
fn reasons_name_the_rule_that_fired() {
    assert_eq!(classify(&fields("info@em.mailchimp.com")), Verdict::NotChat { reason: "esp_domain:em.mailchimp.com".to_string() });
    assert_eq!(classify(&fields("noreply@github.com")), Verdict::NotChat { reason: "sender_local:noreply".to_string() });
    let mut f = fields("team@company.com");
    f.to_count = 6;
    f.cc_count = 2;
    assert_eq!(classify(&f), Verdict::NotChat { reason: "recipients:8".to_string() });
    let mut g = fields("alice@gmail.com");
    g.in_reply_to = Some("<m@x>");
    g.reference_count = 1;
    assert_eq!(classify(&g), Verdict::Chat { reason: "thread:in_reply_to+references".to_string() });
    let mut h = fields("bob@example.com");
    h.in_reply_to = Some("<m@x>");
    assert_eq!(classify(&h), Verdict::Chat { reason: "thread:in_reply_to".to_string() });
}

#[test]
fn five_recipients_are_not_mass_mail() {
    let mut f = fields("team@company.com");
    f.to_count = 5;
    assert_eq!(classify(&f), Verdict::Ambiguous);
}

#[test]
fn a_reply_is_never_left_to_the_model() {
    let mut f = fields("someone@company.com");
    f.in_reply_to = Some("<x@y>");
    f.subject = "hello";
    assert!(!matches!(classify(&f), Verdict::Ambiguous));
}

use eddie::classifier::{parse_json_array_len, parse_json_string_array};

#[test]
fn json_array_columns() {
    assert_eq!(parse_json_array_len("[\"a\", 1, null]"), 3);
    assert_eq!(parse_json_array_len("{\"a\": 1}"), 0);
    assert_eq!(parse_json_array_len("not json"), 0);
    assert_eq!(parse_json_string_array("[\"a\", 1, \"b\"]"), vec!["a".to_string(), "b".to_string()]);
    assert_eq!(parse_json_string_array("\"a\""), Vec::<String>::new());
}
