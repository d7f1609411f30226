use eddie::folders::{find_folder_by_attribute, find_sent_folder, folders_to_sync, FolderInfo, FolderPriority};

fn folder(name: &str, attrs: &[&str]) -> FolderInfo {
    let attributes: Vec<String> = attrs.iter().map(|s| s.to_string()).collect();
    let priority = FolderInfo::compute_priority(name, &attributes);
    FolderInfo { name: name.to_string(), attributes, priority }
}

#[test]
fn folder_priorities() {
    assert_eq!(folder("INBOX", &[]).priority, FolderPriority::High);
    assert_eq!(folder("Sent", &["\\Sent"]).priority, FolderPriority::High);
    assert_eq!(folder("Archive", &["\\All"]).priority, FolderPriority::Medium);
    assert_eq!(folder("Spam", &["\\Junk"]).priority, FolderPriority::Excluded);
    assert_eq!(folder("INBOX", &["\\Trash"]).priority, FolderPriority::Excluded);
    assert_eq!(folder("[Gmail]", &["\\NoSelect", "\\HasChildren"]).priority, FolderPriority::NoSelect);
    assert_eq!(folder("Projects", &["\\HasNoChildren"]).priority, FolderPriority::Low);
}

#[test]
fn sent_folder_by_attribute_then_by_name() {
    let fs = vec![folder("INBOX", &[]), folder("INBOX.Gesendete Objekte", &[]), folder("Outbox", &["\\Sent"])];
    assert_eq!(find_sent_folder(&fs), Some("Outbox".to_string()));
    let fs = vec![folder("INBOX", &[]), folder("INBOX.Gesendete Objekte", &[])];
    assert_eq!(find_sent_folder(&fs), Some("INBOX.Gesendete Objekte".to_string()));
    let fs = vec![folder("Trash/Sent", &["\\Trash"]), folder("Drafts", &["\\Drafts"])];
    assert_eq!(find_sent_folder(&fs), None);
    assert_eq!(find_folder_by_attribute(&[folder("D", &["\\Drafts"])], "Drafts"), Some("D".to_string()));
    let fs = vec![folder("INBOX", &[]), folder("INBOX.Posta inviata", &[])];
    assert_eq!(find_sent_folder(&fs), Some("INBOX.Posta inviata".to_string()));
    let fs = vec![folder("Archive/My Sent Mail 2020", &[])];
    assert_eq!(find_sent_folder(&fs), Some("Archive/My Sent Mail 2020".to_string()));
}

#[test]
fn folders_to_sync_on_gmail_and_elsewhere() {
    let fs = vec![
        folder("INBOX", &[]),
        folder("[Gmail]/All Mail", &["All"]),
        folder("[Gmail]/Trash", &["Trash"]),
        folder("Drafts", &["Drafts"]),
        folder("Archive", &["Extension(\"\\\\Archive\")"]),
    ];
    let gmail: Vec<&str> = folders_to_sync(&fs, true).iter().map(|f| f.name.as_str()).collect();
    assert_eq!(gmail, vec!["[Gmail]/All Mail"]);
    let other: Vec<&str> = folders_to_sync(&fs, false).iter().map(|f| f.name.as_str()).collect();
    assert_eq!(other, vec!["INBOX", "Archive"]);
}
