use eddie::skills::{build_modifier_clause_at, compute_revision_hash, has_model, ollama_endpoint, settings_model, Modifiers, OllamaEntry};

#[test]
fn modifiers_read_from_json() {
    let m = Modifiers::from_json("{\"excludeNewsletters\": true, \"hasAttachments\": \"yes\", \"onlyKnownSenders\": true}");
    assert!(m.exclude_newsletters);
    assert!(!m.has_attachments);
    assert!(m.only_known_senders);
    assert!(!m.recent_six_months);
    let none = Modifiers::from_json("not json");
    assert!(!none.exclude_newsletters && !none.exclude_auto_replies);
}

#[test]
fn modifier_clause_quotes_the_account() {
    let m = Modifiers {
        exclude_newsletters: true,
        only_known_senders: true,
        has_attachments: false,
        recent_six_months: true,
        exclude_auto_replies: false,
    };
    assert_eq!(
        build_modifier_clause_at(&m, "o'neil@x.com", -5),
        "AND classification != 'newsletter' AND date >= -5 AND from_address IN (SELECT email FROM entities WHERE account_id = 'o''neil@x.com' AND trust_level IN ('connection', 'contact'))"
    );
    let none = Modifiers::from_json("{}");
    assert_eq!(build_modifier_clause_at(&none, "a", 0), "");
}

#[test]
fn revision_hash_is_a_sha256_prefix() {
    assert_eq!(compute_revision_hash("Find invoices", "llama3", "0.2"), "ac3c99413961d7fa");
    assert_ne!(compute_revision_hash("Find invoices", "llama3", "0.3"), "ac3c99413961d7fa");
    assert_eq!(settings_model("{\"ollamaModel\": \"llama3\", \"temperature\": 0.2}"), "llama3");
    assert_eq!(settings_model("{\"ollamaModel\": 3}"), "");
    assert_eq!(settings_model("oops"), "");
}

#[test]
fn a_skill_has_a_model_of_its_own_or_the_default() {
    let entries = vec![
        ("default".to_string(), OllamaEntry { selected_model: Some("llama3".to_string()) }),
        ("s1".to_string(), OllamaEntry { selected_model: None }),
    ];
    assert!(!has_model(&entries, "s1", "default"));
    assert!(has_model(&entries, "s2", "default"));
    assert!(!has_model(&[], "s2", "default"));
}

#[test]
fn endpoints_join_without_double_slashes() {
    assert_eq!(ollama_endpoint("http://localhost:11434//", "/v1/models"), "http://localhost:11434/v1/models");
}
