use ironclaw_memory::document::content_sha256;
use ironclaw_memory::listing::{WorkspaceEntry, merge_workspace_entries, sort_dedup_paths};
use ironclaw_memory::memdoc::MemoryDocument;
use ironclaw_memory::metadata::{
    HygieneMetadata, MIN_RETENTION_DAYS, clamp_retention_days, default_retention_days,
    find_nearest_config,
};
use ironclaw_memory::paths;

const JAN_2025: i128 = 1_735_689_600_000_000_000;
const MAR_2025: i128 = 1_740_787_200_000_000_000;
const JUN_2025: i128 = 1_748_736_000_000_000_000;

#[test]
fn test_memory_document_new() {
    let doc = MemoryDocument::new("user1", None, "context/vision.md");
    assert_eq!(doc.user_id, "user1");
    assert_eq!(doc.path, "context/vision.md");
    assert!(doc.content.is_empty());
}

#[test]
fn test_memory_document_file_name() {
    let doc = MemoryDocument::new("user1", None, "projects/alpha/README.md");
    assert_eq!(doc.file_name(), "README.md");
}

#[test]
fn test_memory_document_parent_dir() {
    let doc = MemoryDocument::new("user1", None, "projects/alpha/README.md");
    assert_eq!(doc.parent_dir().as_deref(), Some("projects/alpha"));

    let root_doc = MemoryDocument::new("user1", None, "README.md");
    assert_eq!(root_doc.parent_dir(), None);
}

#[test]
fn test_memory_document_word_count() {
    let mut doc = MemoryDocument::new("user1", None, "MEMORY.md");
    assert_eq!(doc.word_count(), 0);

    doc.content = "Hello world, this is a test.".to_string();
    assert_eq!(doc.word_count(), 6);
}

#[test]
fn word_count_ignores_runs_of_whitespace() {
    let mut doc = MemoryDocument::new("user1", None, "MEMORY.md");
    doc.content = "  one\n\ttwo   three \u{3000}four ".to_string();
    assert_eq!(doc.word_count(), 4);
    assert!(!doc.is_empty());
}

#[test]
fn test_is_identity_document() {
    let identity = MemoryDocument::new("user1", None, paths::IDENTITY);
    assert!(identity.is_identity_document());

    let soul = MemoryDocument::new("user1", None, paths::SOUL);
    assert!(soul.is_identity_document());

    let memory = MemoryDocument::new("user1", None, paths::MEMORY);
    assert!(!memory.is_identity_document());

    let custom = MemoryDocument::new("user1", None, "projects/notes.md");
    assert!(!custom.is_identity_document());
}

#[test]
fn new_documents_get_distinct_ids() {
    let a = MemoryDocument::new("user1", Some(5), "a.md");
    let b = MemoryDocument::new("user1", Some(5), "a.md");
    assert_ne!(a.id, b.id);
    assert_eq!(a.agent_id, Some(5));
    assert_eq!(a.created_at, a.updated_at);
    assert!(a.hdc_fingerprint.is_none());
}

#[test]
fn test_workspace_entry_name() {
    let entry = WorkspaceEntry {
        path: "projects/alpha".to_string(),
        is_directory: true,
        updated_at: None,
        content_preview: None,
    };
    assert_eq!(entry.name(), "alpha");
}

#[test]
fn test_merge_workspace_entries_empty() {
    let result = merge_workspace_entries(vec![]);
    assert!(result.is_empty());
}

#[test]
fn test_merge_workspace_entries_keeps_newer_timestamp_and_preview() {
    let entries = vec![
        WorkspaceEntry {
            path: "notes.md".to_string(),
            is_directory: false,
            updated_at: Some(JAN_2025),
            content_preview: Some("old".to_string()),
        },
        WorkspaceEntry {
            path: "notes.md".to_string(),
            is_directory: false,
            updated_at: Some(JUN_2025),
            content_preview: Some("new".to_string()),
        },
    ];

    let result = merge_workspace_entries(entries);
    assert_eq!(result.len(), 1);
    assert_eq!(result[0].updated_at, Some(JUN_2025));
    assert_eq!(result[0].content_preview, Some("new".to_string()));
}

#[test]
fn merge_keeps_newer_timestamp_when_it_comes_first() {
    let entries = vec![
        WorkspaceEntry {
            path: "notes.md".to_string(),
            is_directory: false,
            updated_at: Some(JUN_2025),
            content_preview: Some("new".to_string()),
        },
        WorkspaceEntry {
            path: "notes.md".to_string(),
            is_directory: false,
            updated_at: Some(JAN_2025),
            content_preview: Some("old".to_string()),
        },
    ];
    let result = merge_workspace_entries(entries);
    assert_eq!(result[0].updated_at, Some(JUN_2025));
    assert_eq!(result[0].content_preview, Some("new".to_string()));
}

#[test]
fn test_merge_workspace_entries_directory_wins() {
    let entries = vec![
        WorkspaceEntry {
            path: "projects".to_string(),
            is_directory: false,
            updated_at: None,
            content_preview: Some("file content".to_string()),
        },
        WorkspaceEntry {
            path: "projects".to_string(),
            is_directory: true,
            updated_at: None,
            content_preview: None,
        },
    ];

    let result = merge_workspace_entries(entries);
    assert_eq!(result.len(), 1);
    assert!(result[0].is_directory);
    assert!(result[0].content_preview.is_none());
}

#[test]
fn test_merge_workspace_entries_fills_missing_timestamp() {
    let entries = vec![
        WorkspaceEntry {
            path: "a.md".to_string(),
            is_directory: false,
            updated_at: None,
            content_preview: None,
        },
        WorkspaceEntry {
            path: "a.md".to_string(),
            is_directory: false,
            updated_at: Some(MAR_2025),
            content_preview: None,
        },
    ];

    let result = merge_workspace_entries(entries);
    assert_eq!(result.len(), 1);
    assert_eq!(result[0].updated_at, Some(MAR_2025));
}

#[test]
fn test_merge_workspace_entries_sorted_by_path() {
    let entries = vec![
        WorkspaceEntry {
            path: "z.md".to_string(),
            is_directory: false,
            updated_at: None,
            content_preview: None,
        },
        WorkspaceEntry {
            path: "a.md".to_string(),
            is_directory: false,
            updated_at: None,
            content_preview: None,
        },
        WorkspaceEntry {
            path: "m.md".to_string(),
            is_directory: false,
            updated_at: None,
            content_preview: None,
        },
    ];

    let result = merge_workspace_entries(entries);
    assert_eq!(result.len(), 3);
    assert_eq!(result[0].path, "a.md");
    assert_eq!(result[1].path, "m.md");
    assert_eq!(result[2].path, "z.md");
}

#[test]
fn merging_a_merged_listing_changes_nothing() {
    let entries = vec![
        WorkspaceEntry {
            path: "b".to_string(),
            is_directory: true,
            updated_at: Some(MAR_2025),
            content_preview: None,
        },
        WorkspaceEntry {
            path: "a.md".to_string(),
            is_directory: false,
            updated_at: Some(JAN_2025),
            content_preview: Some("x".to_string()),
        },
        WorkspaceEntry {
            path: "b".to_string(),
            is_directory: false,
            updated_at: Some(JUN_2025),
            content_preview: Some("y".to_string()),
        },
    ];
    let once = merge_workspace_entries(entries);
    let copy: Vec<WorkspaceEntry> = once
        .iter()
        .map(|e| WorkspaceEntry {
            path: e.path.clone(),
            is_directory: e.is_directory,
            updated_at: e.updated_at,
            content_preview: e.content_preview.clone(),
        })
        .collect();
    let twice = merge_workspace_entries(copy);
    assert_eq!(once.len(), twice.len());
    for (a, b) in once.iter().zip(twice.iter()) {
        assert_eq!(a.path, b.path);
        assert_eq!(a.is_directory, b.is_directory);
        assert_eq!(a.updated_at, b.updated_at);
        assert_eq!(a.content_preview, b.content_preview);
    }
    assert_eq!(once[1].path, "b");
    assert!(once[1].is_directory);
    assert_eq!(once[1].updated_at, Some(JUN_2025));
    assert_eq!(once[1].content_preview, None);
}

#[test]
fn sort_dedup_orders_by_utf8_bytes() {
    let r = sort_dedup_paths(vec![
        "b".to_string(),
        "B".to_string(),
        "é".to_string(),
        "a".to_string(),
        "b".to_string(),
        "ab".to_string(),
    ]);
    assert_eq!(
        r,
        vec![
            "B".to_string(),
            "a".to_string(),
            "ab".to_string(),
            "b".to_string(),
            "é".to_string()
        ]
    );
}

#[test]
fn test_content_sha256_deterministic() {
    let hash1 = content_sha256("hello world");
    let hash2 = content_sha256("hello world");
    assert_eq!(hash1, hash2);
    assert!(hash1.starts_with("sha256:"));
}

#[test]
fn test_content_sha256_different_content() {
    let hash1 = content_sha256("hello");
    let hash2 = content_sha256("world");
    assert_ne!(hash1, hash2);
}

#[test]
fn test_content_sha256_empty_string() {
    let hash = content_sha256("");
    assert!(hash.starts_with("sha256:"));
    assert_eq!(
        hash,
        "sha256:e3b0c44298fc1c149afbf4c8996fb92427ae41e4649b934ca495991b7852b855"
    );
}

#[test]
fn test_content_sha256_unicode() {
    let hash1 = content_sha256("Hello 🌍");
    let hash2 = content_sha256("Hello 🌍");
    assert_eq!(hash1, hash2);
    let hash3 = content_sha256("Hello 🌎");
    assert_ne!(hash1, hash3);
}

#[test]
fn content_sha256_known_value() {
    assert_eq!(
        content_sha256("hello world"),
        "sha256:b94d27b9934d3e08a52e52d7da7dabfac484efe37a5380ee9088f7ace2efcde9"
    );
}

#[test]
fn test_hygiene_metadata_default_retention() {
    let hygiene = HygieneMetadata {
        enabled: true,
        retention_days: default_retention_days(),
    };
    assert!(hygiene.enabled);
    assert_eq!(hygiene.retention_days, 30);
}

#[test]
fn test_hygiene_metadata_retention_days_clamped_to_minimum() {
    let hygiene = HygieneMetadata {
        enabled: true,
        retention_days: clamp_retention_days(0),
    };
    assert_eq!(hygiene.retention_days, MIN_RETENTION_DAYS);

    let hygiene = HygieneMetadata {
        enabled: true,
        retention_days: clamp_retention_days(1),
    };
    assert_eq!(hygiene.retention_days, 1);
}

#[test]
fn nearest_config_walks_up_the_tree() {
    let configs = vec![
        ".config".to_string(),
        "projects/.config".to_string(),
        "projects/alpha/.config".to_string(),
    ];
    assert_eq!(find_nearest_config("projects/alpha/notes.md", &configs), Some(2));
    assert_eq!(find_nearest_config("projects/beta/notes.md", &configs), Some(1));
    assert_eq!(find_nearest_config("notes.md", &configs), Some(0));
    assert_eq!(find_nearest_config("daily/2024.md", &configs[1..]), None);
}

#[test]
fn nearest_config_prefers_the_last_duplicate() {
    let configs = vec![
        "daily/.config".to_string(),
        ".config".to_string(),
        "daily/.config".to_string(),
    ];
    assert_eq!(find_nearest_config("daily/2024-01-15.md", &configs), Some(2));
}

#[test]
fn content_hash_is_prefixed_lowercase_hex_of_fixed_length() {
    for s in ["", "hello", "Hello 🌍"] {
        let h = content_sha256(s);
        assert_eq!(h.len(), 71);
        assert!(h.starts_with("sha256:"));
        assert!(h[7..].chars().all(|c| c.is_ascii_digit() || ('a'..='f').contains(&c)));
    }
}

#[test]
fn merged_directory_has_no_preview() {
    let entries = vec![
        WorkspaceEntry {
            path: "a".to_string(),
            is_directory: true,
            updated_at: Some(1),
            content_preview: None,
        },
        WorkspaceEntry {
            path: "a".to_string(),
            is_directory: false,
            updated_at: Some(2),
            content_preview: Some("x".to_string()),
        },
    ];
    let merged = merge_workspace_entries(entries);
    assert_eq!(merged.len(), 1);
    assert!(merged[0].is_directory);
    assert_eq!(merged[0].updated_at, Some(2));
    assert_eq!(merged[0].content_preview, None);
}
