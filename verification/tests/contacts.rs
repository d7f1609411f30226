use eddie::carddav::{parse_address_books_response, parse_contacts_response, parse_principal_response};
use eddie::vcard::{generate_vcard, parse_vcard, Contact, ContactEmail, ContactPhone};

fn contact() -> Contact {
    let mut c = Contact::new();
    c.id = "uid-1".to_string();
    c.full_name = "Doe, John".to_string();
    c.given_name = Some("John".to_string());
    c.family_name = Some("Doe".to_string());
    c.emails = vec![ContactEmail { email: "john@x.com".to_string(), email_type: Some("work".to_string()), primary: true }];
    c.phones = vec![ContactPhone { number: "+1 555".to_string(), phone_type: None, primary: false }];
    c.organization = Some("Acme, Inc".to_string());
    c
}

#[test]
fn vcard_written_in_order() {
    let v = generate_vcard(&contact());
    assert_eq!(
        v,
        "BEGIN:VCARD\r\nVERSION:3.0\r\nUID:uid-1\r\nFN:Doe\\, John\r\nN:Doe;John;;;\r\nEMAIL;TYPE=work;PREF:john@x.com\r\nTEL:+1 555\r\nORG:Acme\\, Inc\r\nEND:VCARD"
    );
}

#[test]
fn vcard_read_back() {
    let v = generate_vcard(&contact());
    let c = parse_vcard(&v).ok().unwrap();
    assert_eq!(c.id, "uid-1");
    assert_eq!(c.full_name, "Doe, John");
    assert_eq!(c.given_name.as_deref(), Some("John"));
    assert_eq!(c.family_name.as_deref(), Some("Doe"));
    assert_eq!(c.emails.len(), 1);
    assert_eq!(c.emails[0].email, "john@x.com");
    assert!(c.emails[0].primary);
    assert_eq!(c.phones[0].number, "+1 555");
    assert_eq!(c.organization.as_deref(), Some("Acme, Inc"));
    // ORG is cut at its first `;`, escaped or not.
    let org = parse_vcard("BEGIN:VCARD\r\nUID:u\r\nORG:Acme\\; Inc;Sales\r\nEND:VCARD").ok().unwrap();
    assert_eq!(org.organization.as_deref(), Some("Acme\\"));
}

#[test]
fn a_card_without_uid_gets_a_fresh_one() {
    let c = parse_vcard("BEGIN:VCARD\r\nFN:Ann\r\nEND:VCARD").ok().unwrap();
    assert_eq!(c.full_name, "Ann");
    assert_eq!(c.id.len(), 36);
    for (i, ch) in c.id.chars().enumerate() {
        if i == 8 || i == 13 || i == 18 || i == 23 {
            assert_eq!(ch, '-');
        } else {
            assert!(ch.is_ascii_digit() || ('a'..='f').contains(&ch));
        }
    }
    assert_eq!(c.id.chars().nth(14), Some('4'));
    let d = parse_vcard("BEGIN:VCARD\r\nFN:Ann\r\nEND:VCARD").ok().unwrap();
    assert_ne!(c.id, d.id);
}

const PRINCIPAL: &str = r#"<?xml version="1.0"?>
<d:multistatus xmlns:d="DAV:">
  <d:response>
    <d:href>/</d:href>
    <d:propstat><d:prop><d:current-user-principal><d:href>/principals/john/</d:href></d:current-user-principal></d:prop></d:propstat>
  </d:response>
</d:multistatus>"#;

#[test]
fn principal_url_resolved_against_the_server() {
    assert_eq!(parse_principal_response(PRINCIPAL, "https://dav.example.com/dav/").ok(), Some("https://dav.example.com/principals/john/".to_string()));
}

const BOOKS: &str = r#"<?xml version="1.0"?>
<d:multistatus xmlns:d="DAV:" xmlns:card="urn:ietf:params:xml:ns:carddav">
  <d:response>
    <d:href>/addressbooks/john/</d:href>
    <d:propstat><d:prop><d:resourcetype><d:collection/></d:resourcetype></d:prop></d:propstat>
  </d:response>
  <d:response>
    <d:href>/addressbooks/john/default/</d:href>
    <d:propstat><d:prop>
      <d:resourcetype><d:collection/><card:addressbook/></d:resourcetype>
      <d:displayname>Contacts</d:displayname>
    </d:prop></d:propstat>
  </d:response>
</d:multistatus>"#;

#[test]
fn only_address_books_are_listed() {
    let books = parse_address_books_response(BOOKS, "https://dav.example.com").ok().unwrap();
    assert_eq!(books.len(), 1);
    assert_eq!(books[0].name, "Contacts");
    assert_eq!(books[0].href, "https://dav.example.com/addressbooks/john/default/");
}

#[test]
fn contacts_read_from_a_report() {
    let xml = format!(
        r#"<?xml version="1.0"?>
<d:multistatus xmlns:d="DAV:" xmlns:card="urn:ietf:params:xml:ns:carddav">
  <d:response>
    <d:href>/addressbooks/john/default/uid-1.vcf</d:href>
    <d:propstat><d:prop><d:getetag>"e1"</d:getetag><card:address-data>{}</card:address-data></d:prop></d:propstat>
  </d:response>
</d:multistatus>"#,
        "BEGIN:VCARD&#13;\nVERSION:3.0&#13;\nUID:uid-1&#13;\nFN:John&#13;\nEND:VCARD"
    );
    let contacts = parse_contacts_response(&xml, "https://dav.example.com").ok().unwrap();
    assert_eq!(contacts.len(), 1);
    assert_eq!(contacts[0].id, "uid-1");
    assert_eq!(contacts[0].full_name, "John");
    assert_eq!(contacts[0].etag.as_deref(), Some("e1"));
}

#[test]
fn written_contact_reads_back() {
    let mut c = Contact::new();
    c.id = "uid-7".to_string();
    c.full_name = "Ann; Lee, PhD\nLine".to_string();
    c.family_name = Some("Lee".to_string());
    c.nickname = Some("Annie".to_string());
    c.emails = vec![
        ContactEmail { email: "ann@x.com".to_string(), email_type: Some("work".to_string()), primary: false },
        ContactEmail { email: "a@y.org".to_string(), email_type: Some("home".to_string()), primary: true },
    ];
    c.phones = vec![ContactPhone { number: "+44 1".to_string(), phone_type: None, primary: true }];
    c.title = Some("Dr, eng".to_string());
    c.birthday = Some("1990-01-02".to_string());
    c.notes = Some("met at: conf".to_string());
    c.photo_url = Some("http://x/p.png".to_string());
    let back = parse_vcard(&generate_vcard(&c)).ok().unwrap();
    assert_eq!(back.id, "uid-7");
    assert_eq!(back.full_name, c.full_name);
    assert_eq!(back.family_name.as_deref(), Some("Lee"));
    assert_eq!(back.given_name, None);
    assert_eq!(back.nickname.as_deref(), Some("Annie"));
    assert_eq!(back.emails.len(), 2);
    assert_eq!(back.emails[0].email, "ann@x.com");
    assert_eq!(back.emails[0].email_type.as_deref(), Some("work"));
    assert!(!back.emails[0].primary);
    // The type of a preferred entry reads back empty: its `PREF` mark is read as the type.
    assert_eq!(back.emails[1].email_type.as_deref(), Some(""));
    assert!(back.emails[1].primary);
    assert_eq!(back.phones[0].phone_type.as_deref(), Some(""));
    assert!(back.phones[0].primary);
    assert_eq!(back.title.as_deref(), Some("Dr, eng"));
    assert_eq!(back.birthday.as_deref(), Some("1990-01-02"));
    assert_eq!(back.notes.as_deref(), Some("met at: conf"));
    assert_eq!(back.photo_url, None);
}

#[test]
fn folded_lines_are_joined() {
    let c = parse_vcard("BEGIN:VCARD\r\nUID:u3\r\nNOTE:hel\r\n lo\r\n\tthere\r\nEND:VCARD").ok().unwrap();
    assert_eq!(c.id, "u3");
    assert_eq!(c.notes.as_deref(), Some("hellothere"));
    let d = parse_vcard(" stray\r\nBEGIN:VCARD\r\nUID:u4\r\nEND:VCARD").ok().unwrap();
    assert_eq!(d.id, "u4");
}
