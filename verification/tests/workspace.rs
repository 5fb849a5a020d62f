use ironclaw_memory::error::WorkspaceError;
use ironclaw_memory::layer::{LayerSensitivity, MemoryLayer};
use ironclaw_memory::listing::WorkspaceEntry;
use ironclaw_memory::paths;
use ironclaw_memory::workspace::{ReadRoute, Workspace};

fn layer(name: &str, scope: &str, writable: bool, sensitivity: LayerSensitivity) -> MemoryLayer {
    MemoryLayer {
        name: name.to_string(),
        scope: scope.to_string(),
        writable,
        sensitivity,
    }
}

fn entry(path: &str) -> WorkspaceEntry {
    WorkspaceEntry {
        path: path.to_string(),
        is_directory: false,
        updated_at: None,
        content_preview: None,
    }
}

#[test]
fn test_bootstrap_completed_default_false() {
    let ws = Workspace::new("alice");
    assert!(!ws.is_bootstrap_completed());
}

#[test]
fn test_bootstrap_completed_mark_and_check() {
    let mut ws = Workspace::new("alice");
    ws.mark_bootstrap_completed();
    assert!(ws.is_bootstrap_completed());
}

#[test]
fn test_default_single_scope() {
    let ws = Workspace::new("alice");
    let read_user_ids = ws.read_user_ids();
    assert_eq!(read_user_ids.len(), 1);
    assert_eq!(read_user_ids[0], "alice");
}

#[test]
fn test_additional_read_scopes() {
    let ws = Workspace::new("alice")
        .with_additional_read_scopes(vec!["shared".to_string(), "team".to_string()]);
    let read_user_ids = ws.read_user_ids();
    assert_eq!(read_user_ids.len(), 3);
    assert_eq!(read_user_ids[0], "alice");
    assert_eq!(read_user_ids[1], "shared");
    assert_eq!(read_user_ids[2], "team");
}

#[test]
fn test_additional_read_scopes_dedup() {
    let ws = Workspace::new("alice").with_additional_read_scopes(vec![
        "shared".to_string(),
        "alice".to_string(),
        "shared".to_string(),
    ]);
    let read_user_ids = ws.read_user_ids();
    assert_eq!(read_user_ids.len(), 2);
    assert_eq!(read_user_ids[0], "alice");
    assert_eq!(read_user_ids[1], "shared");
}

#[test]
fn test_is_multi_scope_logic() {
    let single = Workspace::new("alice");
    assert!(!single.is_multi_scope());
    let multi = Workspace::new("alice").with_additional_read_scopes(vec!["shared".to_string()]);
    assert!(multi.is_multi_scope());
}

#[test]
fn bootstrap_pending_is_taken_once() {
    let mut ws = Workspace::new("alice");
    assert!(!ws.take_bootstrap_pending());
    ws.set_bootstrap_pending();
    assert!(ws.take_bootstrap_pending());
    assert!(!ws.take_bootstrap_pending());
}

#[test]
fn new_workspace_has_private_default_layer() {
    let ws = Workspace::new("alice");
    let layers = ws.memory_layers();
    assert_eq!(layers.len(), 1);
    assert_eq!(layers[0].name, "private");
    assert_eq!(layers[0].scope, "alice");
    assert!(layers[0].writable);
    assert_eq!(layers[0].sensitivity, LayerSensitivity::Private);
    assert_eq!(ws.agent_id(), None);
    assert_eq!(ws.user_id(), "alice");
}

#[test]
fn memory_layers_add_their_scopes_to_reads() {
    let ws = Workspace::new("alice").with_memory_layers(vec![
        layer("private", "alice", true, LayerSensitivity::Private),
        layer("household", "family", true, LayerSensitivity::Shared),
        layer("finance", "family", false, LayerSensitivity::Shared),
    ]);
    assert_eq!(ws.read_user_ids(), &["alice".to_string(), "family".to_string()]);
    assert_eq!(ws.memory_layers().len(), 3);
}

#[test]
fn adding_the_same_scopes_twice_changes_nothing() {
    let once = Workspace::new("alice")
        .with_additional_read_scopes(vec!["shared".to_string(), "team".to_string()]);
    let twice = Workspace::new("alice")
        .with_additional_read_scopes(vec!["shared".to_string(), "team".to_string()])
        .with_additional_read_scopes(vec!["shared".to_string(), "team".to_string()]);
    assert_eq!(once.read_user_ids(), twice.read_user_ids());
}

#[test]
fn scoped_to_user_moves_private_layers_and_drops_old_identity() {
    let mut source = Workspace::new("alice")
        .with_additional_read_scopes(vec!["shared".to_string()])
        .with_memory_layers(vec![
            layer("private", "alice", true, LayerSensitivity::Private),
            layer("household", "family", true, LayerSensitivity::Shared),
        ])
        .with_agent(7);
    source.mark_bootstrap_completed();
    let scoped = source.scoped_to_user("bob");
    assert_eq!(scoped.user_id(), "bob");
    assert_eq!(
        scoped.read_user_ids(),
        &["bob".to_string(), "shared".to_string(), "family".to_string()]
    );
    assert_eq!(scoped.memory_layers()[0].scope, "bob");
    assert_eq!(scoped.memory_layers()[1].scope, "family");
    assert_eq!(scoped.agent_id(), Some(7));
    assert!(!scoped.is_bootstrap_completed());
}

#[test]
fn scoped_to_user_keeps_scope_shared_by_a_non_private_layer() {
    let source = Workspace::new("alice").with_memory_layers(vec![
        layer("private", "alice", true, LayerSensitivity::Private),
        layer("team", "alice", true, LayerSensitivity::Shared),
    ]);
    let scoped = source.scoped_to_user("bob");
    assert_eq!(scoped.read_user_ids(), &["bob".to_string(), "alice".to_string()]);
}

#[test]
fn scoped_to_same_user_keeps_flags() {
    let mut source = Workspace::new("alice");
    source.mark_bootstrap_completed();
    source.set_bootstrap_pending();
    let mut scoped = source.scoped_to_user("alice");
    assert!(scoped.is_bootstrap_completed());
    assert!(scoped.take_bootstrap_pending());
}

#[test]
fn identity_reads_stay_in_primary_scope() {
    let ws = Workspace::new("alice").with_additional_read_scopes(vec!["shared".to_string()]);
    assert_eq!(ws.read_route("/SOUL.md"), ("SOUL.md".to_string(), ReadRoute::Primary));
    assert_eq!(
        ws.read_route("MEMORY.md"),
        ("MEMORY.md".to_string(), ReadRoute::AllScopes)
    );
    let single = Workspace::new("alice");
    assert_eq!(
        single.read_route("notes//a.md"),
        ("notes/a.md".to_string(), ReadRoute::Primary)
    );
}

#[test]
fn combined_listing_hides_secondary_identity_files() {
    let ws = Workspace::new("alice").with_additional_read_scopes(vec!["shared".to_string()]);
    let primary = vec![entry("notes.md"), entry(paths::SOUL)];
    let secondary = vec![vec![entry(paths::USER), entry("a.md"), entry("notes.md")]];
    let merged = ws.combine_listings(primary, secondary);
    let names: Vec<&str> = merged.iter().map(|e| e.path.as_str()).collect();
    assert_eq!(names, vec!["SOUL.md", "a.md", "notes.md"]);
}

#[test]
fn single_scope_listing_is_unchanged() {
    let ws = Workspace::new("alice");
    let merged = ws.combine_listings(vec![entry("z.md"), entry("a.md")], vec![]);
    let names: Vec<&str> = merged.iter().map(|e| e.path.as_str()).collect();
    assert_eq!(names, vec!["z.md", "a.md"]);
}

#[test]
fn combined_paths_are_sorted_and_unique() {
    let ws = Workspace::new("alice").with_additional_read_scopes(vec!["shared".to_string()]);
    let all = ws.combine_paths(
        vec!["b.md".to_string(), "AGENTS.md".to_string()],
        vec![vec![
            "AGENTS.md".to_string(),
            "a.md".to_string(),
            "b.md".to_string(),
        ]],
    );
    assert_eq!(
        all,
        vec!["AGENTS.md".to_string(), "a.md".to_string(), "b.md".to_string()]
    );
}

#[test]
fn search_drops_identity_documents_of_other_scopes() {
    let ws = Workspace::new("alice").with_additional_read_scopes(vec!["shared".to_string()]);
    let ids = [1u128, 2, 3, 2];
    let paths = [
        "notes.md".to_string(),
        "SOUL.md".to_string(),
        "USER.md".to_string(),
        "SOUL.md".to_string(),
    ];
    let owners = [
        None,
        Some("shared".to_string()),
        Some("alice".to_string()),
        None,
    ];
    assert_eq!(
        ws.keep_search_results(&ids, &paths, &owners),
        vec![true, false, true, false]
    );
}

#[test]
fn layer_targets_resolve_or_fail() {
    let ws = Workspace::new("alice").with_memory_layers(vec![
        layer("private", "alice", true, LayerSensitivity::Private),
        layer("household", "family", true, LayerSensitivity::Shared),
        layer("archive", "old", false, LayerSensitivity::Shared),
    ]);
    let t = ws.resolve_layer_target("household", Some(false), false).unwrap();
    assert_eq!((t.scope.as_str(), t.layer.as_str(), t.redirected), ("family", "household", false));

    let t = ws.resolve_layer_target("household", Some(true), false).unwrap();
    assert_eq!((t.scope.as_str(), t.layer.as_str(), t.redirected), ("alice", "private", true));

    let t = ws.resolve_layer_target("household", Some(true), true).unwrap();
    assert_eq!((t.scope.as_str(), t.layer.as_str(), t.redirected), ("family", "household", false));

    let t = ws.resolve_layer_target("household", None, false).unwrap();
    assert!(!t.redirected);

    match ws.resolve_layer_target("missing", None, false) {
        Err(WorkspaceError::LayerNotFound { name }) => assert_eq!(name, "missing"),
        _ => panic!("expected LayerNotFound"),
    }
    match ws.resolve_layer_target("archive", None, false) {
        Err(WorkspaceError::LayerReadOnly { name }) => assert_eq!(name, "archive"),
        _ => panic!("expected LayerReadOnly"),
    }
}

#[test]
fn sensitive_content_without_writable_private_layer_fails() {
    let ws = Workspace::new("alice").with_memory_layers(vec![
        layer("private", "alice", false, LayerSensitivity::Private),
        layer("household", "family", true, LayerSensitivity::Shared),
    ]);
    assert!(matches!(
        ws.resolve_layer_target("household", Some(true), false),
        Err(WorkspaceError::PrivacyRedirectFailed)
    ));
}

#[test]
fn pool_workspace_moves_private_layers_to_the_user() {
    let layers = vec![
        layer("private", "owner", true, LayerSensitivity::Private),
        layer("household", "family", true, LayerSensitivity::Shared),
    ];
    let ws = Workspace::for_pool_user("bob", &vec!["shared".to_string()], &layers, true);
    assert_eq!(ws.user_id(), "bob");
    assert!(ws.admin_prompt_enabled());
    assert!(ws.hdc_fingerprint_shadow());
    assert_eq!(ws.memory_layers()[0].scope, "bob");
    assert_eq!(
        ws.read_user_ids(),
        &["bob".to_string(), "shared".to_string(), "family".to_string()]
    );
}

#[test]
fn bootstrap_pending_is_reported_once() {
    let mut ws = Workspace::new("alice");
    assert!(!ws.take_bootstrap_pending());
    ws.set_bootstrap_pending();
    assert!(ws.take_bootstrap_pending());
    assert!(!ws.take_bootstrap_pending());
    assert_eq!(ws.user_id(), "alice");
}

#[test]
fn identity_paths_only_from_the_primary_scope() {
    let ws = Workspace::new("alice").with_additional_read_scopes(vec!["shared".to_string()]);
    let all = ws.combine_paths(
        vec!["b.md".to_string()],
        vec![vec!["SOUL.md".to_string(), "IDENTITY.md".to_string(), "c.md".to_string()]],
    );
    assert_eq!(all, vec!["b.md".to_string(), "c.md".to_string()]);
    let merged = ws.combine_listings(vec![entry("b.md")], vec![vec![entry(paths::AGENTS)]]);
    let names: Vec<&str> = merged.iter().map(|e| e.path.as_str()).collect();
    assert_eq!(names, vec!["b.md"]);
}
