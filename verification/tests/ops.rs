use ironclaw_memory::error::{WorkspaceError, schema_verdict};
use ironclaw_memory::ops::{
    InjectionWarning, WriteStep, appended_content, daily_log_path, import_candidate,
    injection_verdict, is_new_version, is_profile_recent, needs_injection_scan, plan_write,
    profile_recent_at, timestamped_entry, version_hash,
};
use ironclaw_memory::profile::synced_user_md;
use ironclaw_memory::patch::{apply_patch, patch_preview};

#[test]
fn patch_single_replacement() {
    let (content, count) = apply_patch("test.md", "hello world hello", "hello", "hi", false).unwrap();
    assert_eq!(count, 1);
    assert_eq!(content, "hi world hello");
}

#[test]
fn patch_replace_all() {
    let (content, count) = apply_patch("test.md", "hello world hello", "hello", "hi", true).unwrap();
    assert_eq!(count, 2);
    assert_eq!(content, "hi world hi");
}

#[test]
fn patch_not_found_error() {
    match apply_patch("test.md", "hello", "xyz", "abc", false) {
        Err(WorkspaceError::PatchFailed { path, reason }) => {
            assert_eq!(path, "test.md");
            assert_eq!(reason, "old_string not found in document");
        }
        _ => panic!("expected PatchFailed"),
    }
}

#[test]
fn patch_empty_old_string_error() {
    match apply_patch("test.md", "hello", "", "abc", false) {
        Err(WorkspaceError::PatchFailed { reason, .. }) => {
            assert_eq!(reason, "old_string cannot be empty")
        }
        _ => panic!("expected PatchFailed"),
    }
}

#[test]
fn patch_with_unicode() {
    let (content, count) =
        apply_patch("test.md", "Hello 🌍 World 🌍", "🌍", "🌎", false).unwrap();
    assert_eq!(count, 1);
    assert_eq!(content, "Hello 🌎 World 🌍");
}

#[test]
fn patch_empty_replacement() {
    let (content, _) = apply_patch("test.md", "hello cruel world", " cruel", "", false).unwrap();
    assert_eq!(content, "hello world");
}

#[test]
fn patch_counts_non_overlapping_matches() {
    let (content, count) = apply_patch("t.md", "aaaa", "aa", "b", true).unwrap();
    assert_eq!(count, 2);
    assert_eq!(content, "bb");
    let (content, count) = apply_patch("t.md", "aaa", "aa", "b", true).unwrap();
    assert_eq!(count, 1);
    assert_eq!(content, "ba");
}

#[test]
fn preview_matches_patch() {
    assert_eq!(patch_preview("x = 1\nx = 1", "1", "2", false), "x = 2\nx = 1");
    assert_eq!(patch_preview("x = 1\nx = 1", "1", "2", true), "x = 2\nx = 2");
    assert_eq!(patch_preview("abc", "z", "y", true), "abc");
}

#[test]
fn write_steps() {
    assert_eq!(plan_write("notes.md", "a", "a"), WriteStep::Reindex);
    assert_eq!(plan_write("notes.md", "a", "b"), WriteStep::Store);
    assert_eq!(
        plan_write("engine/.runtime/t.json", "a", "a"),
        WriteStep::RuntimeUnchanged
    );
    assert_eq!(
        plan_write("engine/projects/p/project.json", "a", "b"),
        WriteStep::RuntimeStore
    );
    assert_eq!(
        plan_write("engine/.runtime/../knowledge/x.md", "a", "b"),
        WriteStep::Store
    );
}

#[test]
fn injection_scan_only_for_nonempty_system_prompt_files() {
    assert!(needs_injection_scan("SOUL.md", "be kind"));
    assert!(needs_injection_scan("soul.md", "be kind"));
    assert!(!needs_injection_scan("SOUL.md", ""));
    assert!(!needs_injection_scan("notes.md", "anything"));
}

#[test]
fn appends_join_with_separator() {
    assert_eq!(appended_content("", "entry", "\n"), "entry");
    assert_eq!(appended_content("old", "entry", "\n"), "old\nentry");
    assert_eq!(appended_content("old", "entry", "\n\n"), "old\n\nentry");
}

#[test]
fn versions_are_skipped_for_empty_or_flagged_content() {
    assert_eq!(version_hash("", None), None);
    assert_eq!(version_hash("x", Some(true)), None);
    assert_eq!(
        version_hash("hello world", Some(false)).as_deref(),
        Some("sha256:b94d27b9934d3e08a52e52d7da7dabfac484efe37a5380ee9088f7ace2efcde9")
    );
    assert!(is_new_version("sha256:a", None));
    assert!(is_new_version("sha256:a", Some("sha256:b")));
    assert!(!is_new_version("sha256:a", Some("sha256:a")));
}

#[test]
fn daily_log_names() {
    assert_eq!(daily_log_path("2024-01-15"), "daily/2024-01-15.md");
    assert_eq!(timestamped_entry("09:30:00", "standup"), "[09:30:00] standup");
}

#[test]
fn profile_recency() {
    let day = 86_400i64;
    let now = (1_700_000_000i64, 0u32);
    assert!(profile_recent_at(Some((now.0 - 7 * day, 0)), now, 7));
    assert!(!profile_recent_at(Some((now.0 - 8 * day, 0)), now, 7));
    assert!(profile_recent_at(Some((now.0 - 8 * day + 1, 0)), now, 7));
    assert!(!profile_recent_at(Some((now.0 + 5, 0)), now, 7));
    assert!(profile_recent_at(Some((now.0, 500_000_000)), now, 7));
    assert!(!profile_recent_at(None, now, 7));
    assert!(!is_profile_recent("not a date", 7));
    assert!(!is_profile_recent("2001-01-01T00:00:00Z", 7));
    assert!(!is_profile_recent("2999-01-01T00:00:00Z", 7));
}

#[test]
fn injection_rejected_only_for_high_findings() {
    assert!(injection_verdict("SOUL.md", &[]).is_ok());
    let low = InjectionWarning {
        high: false,
        description: "mild".to_string(),
    };
    assert!(injection_verdict("SOUL.md", &[low]).is_ok());
    let findings = [
        InjectionWarning {
            high: true,
            description: "override".to_string(),
        },
        InjectionWarning {
            high: false,
            description: "mild".to_string(),
        },
        InjectionWarning {
            high: true,
            description: "exfiltrate".to_string(),
        },
    ];
    match injection_verdict("SOUL.md", &findings) {
        Err(WorkspaceError::InjectionRejected { path, reason }) => {
            assert_eq!(path, "SOUL.md");
            assert_eq!(reason, "override; exfiltrate");
        }
        _ => panic!("expected InjectionRejected"),
    }
}

#[test]
fn import_takes_markdown_with_content() {
    assert!(import_candidate("AGENTS.md", "# Agents"));
    assert!(import_candidate("a.b.md", "x"));
    assert!(!import_candidate("AGENTS.md", "  \n"));
    assert!(!import_candidate("notes.txt", "x"));
    assert!(!import_candidate(".md", "x"));
    assert!(!import_candidate("md", "x"));
    assert!(import_candidate("..md", "x"));
}

#[test]
fn synced_user_md_merges_or_wraps() {
    assert_eq!(
        synced_user_md(None, "p"),
        "<!-- BEGIN:profile-sync -->\np\n<!-- END:profile-sync -->"
    );
    assert_eq!(
        synced_user_md(Some("mine"), "p"),
        "mine\n\n<!-- BEGIN:profile-sync -->\np\n<!-- END:profile-sync -->"
    );
}

#[test]
fn schema_violations_reject_the_write() {
    assert!(schema_verdict("config.json", vec![]).is_ok());
    let err = schema_verdict("config.json", vec!["content is not valid JSON".to_string()]).unwrap_err();
    match &err {
        WorkspaceError::SchemaValidation { path, errors } => {
            assert_eq!(path, "config.json");
            assert!(errors[0].contains("not valid JSON"));
        }
        other => panic!("expected SchemaValidation, got {other:?}"),
    }
    assert_eq!(
        err.message(),
        "Schema validation failed for config.json: content is not valid JSON"
    );
}
