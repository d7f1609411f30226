use eddie::mime::EddieError;
use eddie::smtp::{build_smtp_message, smtp_references, smtp_sender, smtp_transport, SmtpMessage, SmtpTransport};

fn message() -> SmtpMessage {
    SmtpMessage {
        from: "me@example.com".to_string(),
        from_name: Some("Me".to_string()),
        to: vec!["bob@example.com".to_string()],
        cc: vec![],
        subject: "Hello".to_string(),
        body: "Hi Bob".to_string(),
        in_reply_to: Some("<p@x>".to_string()),
        references: vec!["<a@x>".to_string(), "<b@x>".to_string()],
    }
}

#[test]
fn message_is_formatted_for_sending() {
    let raw = String::from_utf8(build_smtp_message(&message(), 1_700_000_000).ok().unwrap()).unwrap();
    assert!(raw.contains("From: Me <me@example.com>"));
    assert!(raw.contains("To: bob@example.com"));
    assert!(raw.contains("Subject: Hello"));
    assert!(raw.contains("In-Reply-To: <p@x>"));
    assert!(raw.contains("References: <a@x> <b@x>"));
    assert!(raw.contains("Date: Tue, 14 Nov 2023 22:13:20"));
    assert_eq!(build_smtp_message(&message(), 1_700_000_000).ok().unwrap(), raw.clone().into_bytes());
    assert!(raw.ends_with("Hi Bob"));
}

#[test]
fn sender_and_references_handed_to_the_builder() {
    assert_eq!(smtp_sender(&"me@x.com".to_string(), &Some("Me".to_string())), "Me <me@x.com>");
    assert_eq!(smtp_sender(&"me@x.com".to_string(), &None), "me@x.com");
    assert_eq!(smtp_references(&vec![]), None);
    assert_eq!(smtp_references(&vec!["<a>".to_string(), "<b>".to_string()]), Some("<a> <b>".to_string()));
}

#[test]
fn invalid_addresses_and_missing_recipients_are_refused() {
    let mut m = message();
    m.from = "not an address".to_string();
    m.from_name = None;
    assert!(matches!(build_smtp_message(&m, 1_700_000_000), Err(EddieError::InvalidInput(e)) if e.starts_with("Invalid from address: ")));
    let mut m = message();
    m.to = vec!["ok@x.com".to_string(), "bad".to_string()];
    assert!(matches!(build_smtp_message(&m, 1_700_000_000), Err(EddieError::InvalidInput(e)) if e.starts_with("Invalid to address 'bad': ")));
    let mut m = message();
    m.cc = vec!["also bad".to_string()];
    assert!(matches!(build_smtp_message(&m, 1_700_000_000), Err(EddieError::InvalidInput(e)) if e.starts_with("Invalid cc address 'also bad': ")));
    let mut m = message();
    m.to = vec![];
    assert!(matches!(build_smtp_message(&m, 1_700_000_000), Err(EddieError::Backend(e)) if e.starts_with("Failed to build email: ")));
    let mut m = message();
    m.to = vec![];
    m.cc = vec!["cc@x.com".to_string()];
    assert!(build_smtp_message(&m, 1_700_000_000).is_ok());
}

#[test]
fn transport_follows_tls_and_port() {
    assert!(matches!(smtp_transport(true, 465), SmtpTransport::ImplicitTls));
    assert!(matches!(smtp_transport(true, 587), SmtpTransport::StartTls));
    assert!(matches!(smtp_transport(false, 465), SmtpTransport::Plain));
    assert!(matches!(smtp_transport(false, 25), SmtpTransport::Plain));
}
