use ironclaw_memory::config::HdcDedupMode;
use ironclaw_memory::error::{ToolError, WorkspaceError, map_write_err};
use ironclaw_memory::listing::WorkspaceEntry;
use ironclaw_memory::tools::{
    ApprovalRequirement, MetadataStep, ReadMode, WriteKind, WriteRequest, WriteRoute,
    check_patch_params, dedup_blocks, plan_memory_read, plan_memory_write, search_limit,
    synthesis_message, tree_depth, tree_label, wants_synthesis, write_requires_approval,
};

fn request() -> WriteRequest {
    WriteRequest {
        target: None,
        content: None,
        append: None,
        layer: None,
        force: None,
        has_metadata: false,
        old_string: None,
        new_string: None,
        replace_all: None,
    }
}

fn invalid_message(e: ToolError) -> String {
    match e {
        ToolError::InvalidParameters(m) => m,
        other => panic!("expected InvalidParameters, got {other:?}"),
    }
}

#[test]
fn requires_approval_protected_path_self_modify_enabled() {
    let result = write_requires_approval(Some("orchestrator:main"), true);
    assert!(matches!(result, ApprovalRequirement::Always));
}

#[test]
fn requires_approval_protected_path_self_modify_disabled() {
    let result = write_requires_approval(Some("orchestrator:main"), false);
    assert!(matches!(result, ApprovalRequirement::Never));
}

#[test]
fn requires_approval_physical_orchestrator_path_with_self_modify() {
    let result = write_requires_approval(Some(".system/engine/orchestrator/v3.py"), true);
    assert!(matches!(result, ApprovalRequirement::Always));
}

#[test]
fn requires_approval_dot_segment_bypass_attempt() {
    let result = write_requires_approval(Some("engine/./orchestrator/v3.py"), true);
    assert!(
        matches!(result, ApprovalRequirement::Always),
        "dot-segment bypass should still trigger the approval gate"
    );
}

#[test]
fn requires_approval_traversal_returns_never() {
    let result = write_requires_approval(Some("engine/knowledge/../orchestrator/v3.py"), true);
    assert!(
        matches!(result, ApprovalRequirement::Never),
        "traversal should return Never (execute rejects it), not pause for approval"
    );
}

#[test]
fn requires_approval_unprotected_path_is_never() {
    let result = write_requires_approval(Some("daily_log"), true);
    assert!(matches!(result, ApprovalRequirement::Never));
}

#[test]
fn requires_approval_missing_target_is_never() {
    let result = write_requires_approval(None, true);
    assert!(matches!(result, ApprovalRequirement::Never));
}

#[test]
fn write_needs_content_or_patch() {
    let err = plan_memory_write(&request(), false, "2024-01-15", HdcDedupMode::Off)
        .err()
        .unwrap();
    assert_eq!(
        invalid_message(err),
        "Either 'content' (for write/append) or 'old_string'+'new_string' (for patch) is required"
    );
    let mut blank = request();
    blank.content = Some("  \n".to_string());
    assert!(plan_memory_write(&blank, false, "2024-01-15", HdcDedupMode::Off).is_err());
}

#[test]
fn write_rejects_filesystem_paths() {
    let mut req = request();
    req.target = Some("/Users/me/notes.md".to_string());
    req.content = Some("x".to_string());
    let err = plan_memory_write(&req, false, "2024-01-15", HdcDedupMode::Off)
        .err()
        .unwrap();
    let m = invalid_message(err);
    assert!(m.starts_with("'/Users/me/notes.md' looks like a local filesystem path."));
    assert!(m.ends_with("open \"<absolute_path>\"."));
}

#[test]
fn write_rejects_traversal() {
    let mut req = request();
    req.target = Some("notes/../secret.md".to_string());
    req.content = Some("x".to_string());
    let err = plan_memory_write(&req, true, "2024-01-15", HdcDedupMode::Off)
        .err()
        .unwrap();
    assert_eq!(
        invalid_message(err),
        "'notes/../secret.md' contains a parent-directory ('..') segment, which is not allowed in workspace paths."
    );
}

#[test]
fn write_to_orchestrator_needs_self_modify() {
    let mut req = request();
    req.target = Some("engine/orchestrator/v3.py".to_string());
    req.content = Some("print(1)".to_string());
    match plan_memory_write(&req, false, "2024-01-15", HdcDedupMode::Off) {
        Err(ToolError::NotAuthorized(m)) => assert_eq!(
            m,
            "Writing to 'engine/orchestrator/v3.py' is blocked \u{2014} orchestrator self-modification is disabled. Set ORCHESTRATOR_SELF_MODIFY=true to enable runtime patching."
        ),
        _ => panic!("expected NotAuthorized"),
    }
    let plan = plan_memory_write(&req, true, "2024-01-15", HdcDedupMode::Off).unwrap();
    assert!(plan.validate_python);
    assert_eq!(plan.path, "engine/orchestrator/v3.py");
}

#[test]
fn bootstrap_target_clears_the_file() {
    let mut req = request();
    req.target = Some("bootstrap".to_string());
    let plan = plan_memory_write(&req, false, "2024-01-15", HdcDedupMode::Off).unwrap();
    assert!(matches!(plan.kind, WriteKind::ClearBootstrap));
    assert_eq!(plan.path, "BOOTSTRAP.md");
    assert_eq!(plan.content, "");
}

#[test]
fn default_target_appends_to_todays_log() {
    let mut req = request();
    req.content = Some("met Bob".to_string());
    let plan = plan_memory_write(&req, false, "2024-01-15", HdcDedupMode::Block).unwrap();
    assert_eq!(plan.path, "daily/2024-01-15.md");
    assert!(matches!(
        plan.kind,
        WriteKind::Write {
            append: true,
            route: WriteRoute::DailyLog
        }
    ));
    assert!(!plan.dedup_check);
    assert_eq!(plan.metadata, MetadataStep::Skip);
    assert!(!plan.sync_profile);
}

#[test]
fn memory_overwrite_runs_dedup_unless_forced() {
    let mut req = request();
    req.target = Some("projects/alpha/notes.md".to_string());
    req.content = Some("notes".to_string());
    req.append = Some(false);
    req.has_metadata = true;
    let plan = plan_memory_write(&req, false, "2024-01-15", HdcDedupMode::Warn).unwrap();
    assert!(plan.dedup_check);
    assert_eq!(plan.metadata, MetadataStep::GetOrCreate);
    assert!(matches!(
        plan.kind,
        WriteKind::Write {
            append: false,
            route: WriteRoute::Path
        }
    ));
    req.force = Some(true);
    let plan = plan_memory_write(&req, false, "2024-01-15", HdcDedupMode::Warn).unwrap();
    assert!(!plan.dedup_check);
    assert!(plan.force);
    let plan = plan_memory_write(&req, false, "2024-01-15", HdcDedupMode::Off).unwrap();
    assert!(!plan.dedup_check);
}

#[test]
fn identity_and_heartbeat_writes_skip_dedup() {
    for target in ["SOUL.md", "heartbeat"] {
        let mut req = request();
        req.target = Some(target.to_string());
        req.content = Some("x".to_string());
        req.append = Some(false);
        let plan = plan_memory_write(&req, false, "2024-01-15", HdcDedupMode::Block).unwrap();
        assert!(!plan.dedup_check, "{target}");
    }
}

#[test]
fn layer_writes_route_to_the_layer() {
    let mut req = request();
    req.target = Some("memory".to_string());
    req.content = Some("fact".to_string());
    req.layer = Some("household".to_string());
    req.has_metadata = true;
    let plan = plan_memory_write(&req, false, "2024-01-15", HdcDedupMode::Off).unwrap();
    assert_eq!(plan.path, "MEMORY.md");
    assert_eq!(plan.metadata, MetadataStep::Skip);
    match plan.kind {
        WriteKind::Write {
            append: true,
            route: WriteRoute::Layer(name),
        } => assert_eq!(name, "household"),
        _ => panic!("expected a layer write"),
    }
}

#[test]
fn profile_write_syncs_derived_documents() {
    let mut req = request();
    req.target = Some("context/profile.json".to_string());
    req.content = Some("{}".to_string());
    req.append = Some(false);
    let plan = plan_memory_write(&req, false, "2024-01-15", HdcDedupMode::Off).unwrap();
    assert!(plan.sync_profile);
}

#[test]
fn patch_mode_reads_primary_metadata_and_checks_params() {
    let mut req = request();
    req.target = Some("memory".to_string());
    req.old_string = Some(String::new());
    req.has_metadata = true;
    let plan = plan_memory_write(&req, false, "2024-01-15", HdcDedupMode::Off).unwrap();
    assert!(matches!(plan.kind, WriteKind::Patch));
    assert_eq!(plan.metadata, MetadataStep::ReadPrimary);
    assert_eq!(
        invalid_message(check_patch_params(&req).err().unwrap()),
        "old_string cannot be empty"
    );
    req.old_string = Some("a".to_string());
    req.layer = Some("x".to_string());
    assert_eq!(
        invalid_message(check_patch_params(&req).err().unwrap()),
        "patch mode (old_string/new_string) cannot be combined with layer"
    );
    req.layer = None;
    assert_eq!(
        invalid_message(check_patch_params(&req).err().unwrap()),
        "new_string is required when old_string is provided"
    );
    req.new_string = Some("b".to_string());
    let p = check_patch_params(&req).unwrap();
    assert_eq!((p.old_string.as_str(), p.new_string.as_str(), p.replace_all), ("a", "b", false));
}

#[test]
fn duplicates_block_only_in_block_mode() {
    assert!(dedup_blocks(true, HdcDedupMode::Block));
    assert!(!dedup_blocks(true, HdcDedupMode::Warn));
    assert!(!dedup_blocks(false, HdcDedupMode::Block));
}

#[test]
fn write_errors_map_to_tool_errors() {
    match map_write_err(WorkspaceError::InjectionRejected {
        path: "SOUL.md".to_string(),
        reason: "override".to_string(),
    }) {
        ToolError::NotAuthorized(m) => assert_eq!(
            m,
            "content rejected for 'SOUL.md': prompt injection detected (override)"
        ),
        _ => panic!("expected NotAuthorized"),
    }
    match map_write_err(WorkspaceError::LayerNotFound {
        name: "x".to_string(),
    }) {
        ToolError::ExecutionFailed(m) => assert!(m.starts_with("Write failed: ")),
        _ => panic!("expected ExecutionFailed"),
    }
}

#[test]
fn read_plan_checks_version_parameters() {
    assert_eq!(plan_memory_read("MEMORY.md", None, false, None).unwrap(), ReadMode::Current);
    assert_eq!(
        plan_memory_read("MEMORY.md", Some(true), false, None).unwrap(),
        ReadMode::ListVersions
    );
    assert_eq!(
        plan_memory_read("MEMORY.md", None, true, Some(3)).unwrap(),
        ReadMode::Version(3)
    );
    assert_eq!(
        invalid_message(plan_memory_read("MEMORY.md", Some(true), true, None).err().unwrap()),
        "list_versions and version are mutually exclusive"
    );
    assert_eq!(
        invalid_message(plan_memory_read("MEMORY.md", None, true, Some(0)).err().unwrap()),
        "version must be between 1 and 2147483647, got 0"
    );
    assert_eq!(
        invalid_message(
            plan_memory_read("MEMORY.md", None, true, Some(-12)).err().unwrap()
        ),
        "version must be between 1 and 2147483647, got -12"
    );
    assert_eq!(
        invalid_message(
            plan_memory_read("MEMORY.md", None, true, Some(4_294_967_296)).err().unwrap()
        ),
        "version must be between 1 and 2147483647, got 4294967296"
    );
    assert!(
        invalid_message(plan_memory_read("C:\\notes.md", None, false, None).err().unwrap())
            .starts_with("'C:\\notes.md' looks like a local filesystem path. memory_read")
    );
}

#[test]
fn search_limits_and_synthesis() {
    assert_eq!(search_limit(None), 5);
    assert_eq!(search_limit(Some(7)), 7);
    assert_eq!(search_limit(Some(500)), 20);
    assert!(wants_synthesis(Some(true), false, true, 2));
    assert!(!wants_synthesis(Some(true), true, false, 2));
    assert!(!wants_synthesis(None, true, true, 0));
    assert!(wants_synthesis(None, true, true, 1));
    assert_eq!(
        synthesis_message("q", &["[1] a".to_string(), "[2] b".to_string()]),
        "Query: q\n\nMemory fragments:\n[1] a\n\n[2] b"
    );
}

#[test]
fn tree_depth_and_labels() {
    assert_eq!(tree_depth(None), 1);
    assert_eq!(tree_depth(Some(0)), 1);
    assert_eq!(tree_depth(Some(4)), 4);
    assert_eq!(tree_depth(Some(99)), 10);
    let dir = WorkspaceEntry {
        path: "projects/alpha".to_string(),
        is_directory: true,
        updated_at: None,
        content_preview: None,
    };
    assert_eq!(tree_label(&dir), "alpha/");
    let file = WorkspaceEntry {
        path: "notes.md".to_string(),
        is_directory: false,
        updated_at: None,
        content_preview: None,
    };
    assert_eq!(tree_label(&file), "notes.md");
}
