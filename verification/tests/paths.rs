use ironclaw_memory::document::{file_name_of, is_config_path, is_identity_path, is_reserved_scope};
use ironclaw_memory::guards::{
    is_protected_orchestrator_path, is_protected_py_path, looks_like_filesystem_path,
    normalize_workspace_path,
};
use ironclaw_memory::normalize::{
    is_engine_runtime_path, is_system_prompt_file, normalize_directory, normalize_path,
};
use ironclaw_memory::paths;

#[test]
fn detects_filesystem_paths() {
    assert!(looks_like_filesystem_path("/Users/nige/file.md"));
    assert!(looks_like_filesystem_path("C:\\Users\\nige\\file.md"));
    assert!(looks_like_filesystem_path("D:/work/file.md"));
    assert!(looks_like_filesystem_path("~/notes.md"));
}

#[test]
fn allows_workspace_memory_paths() {
    assert!(!looks_like_filesystem_path("MEMORY.md"));
    assert!(!looks_like_filesystem_path("daily/2026-03-11.md"));
    assert!(!looks_like_filesystem_path("projects/alpha/notes.md"));
}

#[test]
fn normalize_strips_dot_and_double_slash_segments() {
    assert_eq!(
        normalize_workspace_path("engine/./orchestrator/v3.py").as_deref(),
        Some("engine/orchestrator/v3.py")
    );
    assert_eq!(
        normalize_workspace_path("engine//orchestrator/v3.py").as_deref(),
        Some("engine/orchestrator/v3.py")
    );
    assert_eq!(
        normalize_workspace_path(".system/engine/orchestrator/v0.py").as_deref(),
        Some(".system/engine/orchestrator/v0.py")
    );
    assert_eq!(
        normalize_workspace_path("./foo/bar").as_deref(),
        Some("foo/bar")
    );
    assert_eq!(
        normalize_workspace_path("foo//bar///baz").as_deref(),
        Some("foo/bar/baz")
    );
}

#[test]
fn normalize_rejects_parent_traversal() {
    assert!(normalize_workspace_path("engine/knowledge/../orchestrator/v3.py").is_none());
    assert!(normalize_workspace_path("../etc/passwd").is_none());
    assert!(normalize_workspace_path("foo/../bar").is_none());
    assert!(normalize_workspace_path("foo/bar/..").is_none());
}

#[test]
fn protected_path_matches_logical_aliases() {
    assert!(is_protected_orchestrator_path("orchestrator:main"));
    assert!(is_protected_orchestrator_path("orchestrator:failures"));
    assert!(is_protected_orchestrator_path("prompt:codeact_preamble"));
}

#[test]
fn protected_path_matches_canonical_physical_paths() {
    assert!(is_protected_orchestrator_path(
        ".system/engine/orchestrator/v3.py"
    ));
    assert!(is_protected_orchestrator_path(
        ".system/engine/orchestrator/failures.json"
    ));
    assert!(is_protected_orchestrator_path(
        ".system/engine/orchestrator/codeact-preamble-overlay.md"
    ));
    assert!(is_protected_orchestrator_path(
        ".system/engine/orchestrator"
    ));
}

#[test]
fn protected_path_matches_legacy_physical_paths() {
    assert!(is_protected_orchestrator_path("engine/orchestrator/v3.py"));
    assert!(is_protected_orchestrator_path("engine/orchestrator"));
}

#[test]
fn protected_path_blocks_dot_segment_bypass() {
    assert!(is_protected_orchestrator_path(
        "engine/./orchestrator/v3.py"
    ));
    assert!(is_protected_orchestrator_path(
        ".system/./engine/orchestrator/v3.py"
    ));
}

#[test]
fn protected_path_blocks_double_slash_bypass() {
    assert!(is_protected_orchestrator_path("engine//orchestrator/v3.py"));
    assert!(is_protected_orchestrator_path(
        ".system/engine//orchestrator/v3.py"
    ));
}

#[test]
fn protected_path_treats_traversal_as_protected() {
    assert!(is_protected_orchestrator_path(
        "engine/knowledge/../orchestrator/v3.py"
    ));
    assert!(is_protected_orchestrator_path("../engine/orchestrator"));
}

#[test]
fn protected_path_rejects_unrelated_workspace_paths() {
    assert!(!is_protected_orchestrator_path("MEMORY.md"));
    assert!(!is_protected_orchestrator_path("daily/2026-03-11.md"));
    assert!(!is_protected_orchestrator_path("projects/alpha/notes.md"));
    assert!(!is_protected_orchestrator_path(
        ".system/engine/knowledge/notes/foo.md"
    ));
    assert!(!is_protected_orchestrator_path("engine_other/file.py"));
}

#[test]
fn protected_py_path_requires_py_under_orchestrator_root() {
    assert!(is_protected_py_path(".system/engine/orchestrator/v3.py"));
    assert!(is_protected_py_path("engine/./orchestrator/v4.py"));
    assert!(!is_protected_py_path(".system/engine/orchestrator/notes.md"));
    assert!(!is_protected_py_path("engine/orchestrator.py"));
    assert!(!is_protected_py_path("engine/orchestrator/../x.py"));
}

#[test]
fn test_is_reserved_scope() {
    assert!(is_reserved_scope("__admin__"));
    assert!(!is_reserved_scope("alice"));
    assert!(!is_reserved_scope(""));
    assert!(!is_reserved_scope("admin"));
    assert!(!is_reserved_scope("550e8400-e29b-41d4-a716-446655440000"));
    assert!(is_reserved_scope("__Admin__"));
    assert!(is_reserved_scope("  __admin__\n"));
    assert!(is_reserved_scope("__system__"));
    assert!(is_reserved_scope("__internal__"));
    assert!(!is_reserved_scope("__only_one_underscore"));
    assert!(!is_reserved_scope("trailing_only__"));
}

#[test]
fn reserved_scope_needs_four_characters() {
    assert!(!is_reserved_scope("___"));
    assert!(is_reserved_scope("____"));
    assert!(!is_reserved_scope("   "));
}

#[test]
fn test_is_config_path() {
    assert!(is_config_path(".config"));
    assert!(is_config_path("daily/.config"));
    assert!(is_config_path(".system/gateway/widgets/.config"));
    assert!(!is_config_path("daily/2024-01-15.md"));
    assert!(!is_config_path("MEMORY.md"));
    assert!(!is_config_path(".config.bak"));
}

#[test]
fn test_is_config_path_edge_cases() {
    assert!(!is_config_path("foo.config"));
    assert!(!is_config_path(""));
    assert!(!is_config_path(".config/bar"));
}

#[test]
fn file_name_is_last_component() {
    assert_eq!(file_name_of("projects/alpha/README.md"), "README.md");
    assert_eq!(file_name_of("README.md"), "README.md");
    assert_eq!(file_name_of("projects/"), "");
}

#[test]
fn identity_paths_are_exact() {
    assert!(is_identity_path(paths::IDENTITY));
    assert!(is_identity_path(paths::SOUL));
    assert!(is_identity_path(paths::BOOTSTRAP));
    assert!(!is_identity_path(paths::MEMORY));
    assert!(!is_identity_path(paths::SYSTEM));
    assert!(!is_identity_path("soul.md"));
}

#[test]
fn test_normalize_path() {
    assert_eq!(normalize_path("foo/bar"), "foo/bar");
    assert_eq!(normalize_path("/foo/bar/"), "foo/bar");
    assert_eq!(normalize_path("foo//bar"), "foo/bar");
    assert_eq!(normalize_path("  /foo/  "), "foo");
    assert_eq!(normalize_path("README.md"), "README.md");
}

#[test]
fn test_normalize_directory() {
    assert_eq!(normalize_directory("foo/bar/"), "foo/bar");
    assert_eq!(normalize_directory("foo/bar"), "foo/bar");
    assert_eq!(normalize_directory("/"), "");
    assert_eq!(normalize_directory(""), "");
}

#[test]
fn test_system_md_is_system_prompt_file_but_not_identity() {
    assert!(
        is_system_prompt_file(paths::SYSTEM),
        "SYSTEM.md should be scanned for injection"
    );
    assert!(
        !is_identity_path(paths::SYSTEM),
        "SYSTEM.md must NOT be an identity path — it is shared, not per-user"
    );
}

#[test]
fn test_system_prompt_file_matching() {
    let cases = vec![
        ("SOUL.md", true),
        ("AGENTS.md", true),
        ("USER.md", true),
        ("IDENTITY.md", true),
        ("SYSTEM.md", true),
        ("MEMORY.md", true),
        ("HEARTBEAT.md", true),
        ("TOOLS.md", true),
        ("BOOTSTRAP.md", true),
        ("context/assistant-directives.md", true),
        ("context/profile.json", true),
        ("soul.md", true),
        ("notes/foo.md", false),
        ("daily/2024-01-01.md", false),
        ("projects/readme.md", false),
    ];
    for (path, expected) in cases {
        assert_eq!(
            is_system_prompt_file(path),
            expected,
            "path '{}': expected system_prompt_file={}, got={}",
            path,
            expected,
            is_system_prompt_file(path),
        );
    }
}

#[test]
fn test_non_system_prompt_file_skips_scanning() {
    assert!(!is_system_prompt_file("notes/foo.md"));
}

#[test]
fn engine_runtime_paths() {
    assert!(is_engine_runtime_path("engine/.runtime/threads/t.json"));
    assert!(is_engine_runtime_path("engine/projects/p/project.json"));
    assert!(is_engine_runtime_path("engine/orchestrator/failures.json"));
    assert!(is_engine_runtime_path("engine/README.md"));
    assert!(!is_engine_runtime_path("engine/.runtime/../knowledge/foo.md"));
    assert!(!is_engine_runtime_path("engine/knowledge/lessons/a.md"));
    assert!(!is_engine_runtime_path("engine/orchestrator/v3.py"));
}

#[test]
fn normalized_paths_are_stable_and_slash_free_at_the_edges() {
    for input in ["//daily///2024-01-01.md//", "  /projects//a/b/ ", "a", "", "///"] {
        let once = normalize_path(input);
        assert!(!once.starts_with('/') && !once.ends_with('/'));
        assert!(!once.contains("//"));
        assert_eq!(normalize_directory(input), once);
        assert_eq!(normalize_path(&once), once);
    }
}

#[test]
fn second_normalization_trims_whitespace_left_inside_slashes() {
    let once = normalize_path("/ a/");
    assert_eq!(once, " a");
    assert_eq!(normalize_path(&once), "a");
}

#[test]
fn reserved_scope_ignores_surrounding_whitespace() {
    for s in ["__admin__", "__x__", "alice", "__", "___", "____", ""] {
        let padded = format!(" \t{s}\n");
        assert_eq!(is_reserved_scope(&padded), is_reserved_scope(s));
    }
    assert!(!is_reserved_scope("__"));
    assert!(!is_reserved_scope("___"));
    assert!(is_reserved_scope("____"));
}
