use eddie::digest::compute_conversation_id;
use eddie::participants::{compute_participant_key, normalize_email};

#[test]
fn test_participant_key_basic() {
    let key = compute_participant_key(
        "alice@example.com",
        &["brian@gmail.com".to_string()],
        &[],
        &["brian@gmail.com".to_string()],
    );
    assert_eq!(key, "alice@example.com");
}

#[test]
fn test_participant_key_multiple() {
    let key = compute_participant_key(
        "charlie@example.com",
        &["brian@gmail.com".to_string(), "alice@example.com".to_string()],
        &[],
        &["brian@gmail.com".to_string()],
    );
    assert_eq!(key, "alice@example.com\ncharlie@example.com");
}

#[test]
fn test_participant_key_self_message() {
    let key = compute_participant_key(
        "brian@gmail.com",
        &["brian@gmail.com".to_string()],
        &[],
        &["brian@gmail.com".to_string()],
    );
    assert_eq!(key, "__self__");
}

#[test]
fn test_participant_key_normalizes() {
    let key = compute_participant_key(
        "Alice@Example.COM",
        &["Brian@Gmail.com".to_string()],
        &[],
        &["brian@gmail.com".to_string()],
    );
    assert_eq!(key, "alice@example.com");
}

#[test]
fn test_conversation_id_deterministic() {
    let id1 = compute_conversation_id("alice@example.com");
    let id2 = compute_conversation_id("alice@example.com");
    assert_eq!(id1, id2);
    assert_eq!(id1.len(), 16);
}

#[test]
fn test_conversation_id_different_keys() {
    let id1 = compute_conversation_id("alice@example.com");
    let id2 = compute_conversation_id("bob@example.com");
    assert_ne!(id1, id2);
}

// ── Laws on concrete values ─────────────────────────────────────────────────

#[test]
fn participant_key_ignores_order_repeats_and_roles() {
    let a = compute_participant_key(
        "bob@example.com",
        &["alice@example.com".to_string(), "carol@example.com".to_string()],
        &["alice@example.com".to_string()],
        &[],
    );
    let b = compute_participant_key(
        "carol@example.com",
        &["bob@example.com".to_string()],
        &["alice@example.com".to_string()],
        &[],
    );
    assert_eq!(a, "alice@example.com\nbob@example.com\ncarol@example.com");
    assert_eq!(a, b);
    assert_eq!(compute_conversation_id(&a), compute_conversation_id(&b));
}

#[test]
fn gmail_addresses_lose_their_dots() {
    assert_eq!(normalize_email("  J.Doe@GoogleMail.com "), "jdoe@googlemail.com");
    assert_eq!(normalize_email("j.doe@example.com"), "j.doe@example.com");
}

#[test]
fn conversation_id_is_the_sha256_prefix() {
    // SHA-256("abc") = ba7816bf8f01cfea...
    assert_eq!(compute_conversation_id("abc"), "ba7816bf8f01cfea");
}
