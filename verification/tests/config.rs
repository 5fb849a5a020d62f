use ironclaw_memory::config::{
    ConfigError, HdcDedupMode, WorkspaceSettings, check_search_modes, optional_hdc_env,
    parse_bool_setting, parse_read_scopes, resolve_dedup_mode, resolve_workspace_settings, validate_read_scopes,
};
use ironclaw_memory::layer::{LayerSensitivity, MemoryLayer};

fn layer(name: &str, scope: &str, sensitivity: LayerSensitivity) -> MemoryLayer {
    MemoryLayer {
        name: name.to_string(),
        scope: scope.to_string(),
        writable: true,
        sensitivity,
    }
}

fn resolve(layers: Vec<MemoryLayer>) -> Result<WorkspaceSettings, ConfigError> {
    resolve_workspace_settings("alice", Some(layers), None)
}

fn error_message(r: Result<WorkspaceSettings, ConfigError>) -> String {
    match r {
        Err(ConfigError::InvalidValue { key, message }) => format!("{key}: {message}"),
        Ok(_) => panic!("expected an error"),
    }
}

#[test]
fn valid_json_parses_correctly() {
    let config = resolve(vec![
        layer("private", "alice", LayerSensitivity::Private),
        layer("shared", "shared", LayerSensitivity::Shared),
    ])
    .expect("should parse");
    assert_eq!(config.memory_layers.len(), 2);
    assert_eq!(config.memory_layers[0].name, "private");
    assert_eq!(config.memory_layers[1].name, "shared");
}

#[test]
fn empty_layer_name_returns_error() {
    let result = resolve(vec![layer("", "alice", LayerSensitivity::Private)]);
    assert!(result.is_err(), "empty layer name should fail");
    let err = error_message(result);
    assert!(err.contains("empty"), "error should mention empty: {err}");
}

#[test]
fn layer_name_exceeding_64_chars_returns_error() {
    let long_name = "a".repeat(65);
    let result = resolve(vec![layer(&long_name, "alice", LayerSensitivity::Private)]);
    assert!(result.is_err(), "long layer name should fail");
    let err = error_message(result);
    assert!(err.contains("exceeds 64"), "error should mention 64 chars: {err}");
}

#[test]
fn layer_name_with_invalid_chars_returns_error() {
    for bad_name in ["has space", "has@at", "has.dot", "has/slash"] {
        let result = resolve(vec![layer(bad_name, "alice", LayerSensitivity::Private)]);
        assert!(result.is_err(), "layer name '{bad_name}' should fail validation");
        let err = error_message(result);
        assert!(
            err.contains("invalid characters"),
            "error for '{bad_name}' should mention invalid characters: {err}"
        );
    }
}

#[test]
fn empty_scope_returns_error() {
    let result = resolve(vec![layer("private", "", LayerSensitivity::Private)]);
    assert!(result.is_err(), "empty scope should fail");
    let err = error_message(result);
    assert!(err.contains("empty scope"), "error should mention empty scope: {err}");
}

#[test]
fn duplicate_layer_names_returns_error() {
    let result = resolve(vec![
        layer("private", "alice", LayerSensitivity::Private),
        layer("private", "bob", LayerSensitivity::Private),
    ]);
    assert!(result.is_err(), "duplicate names should fail");
    let err = error_message(result);
    assert!(err.contains("duplicate"), "error should mention duplicate: {err}");
}

#[test]
fn missing_env_defaults_to_single_private_layer() {
    let config = resolve_workspace_settings("alice", None, None).expect("should default");
    assert_eq!(config.memory_layers.len(), 1);
    assert_eq!(config.memory_layers[0].name, "private");
    assert_eq!(config.memory_layers[0].scope, "alice");
    assert!(config.memory_layers[0].writable);
}

#[test]
fn read_scopes_are_split_trimmed_and_checked() {
    assert_eq!(
        parse_read_scopes(" shared, team ,,"),
        vec!["shared".to_string(), "team".to_string()]
    );
    let config =
        resolve_workspace_settings("alice", None, Some("shared,team".to_string())).unwrap();
    assert_eq!(config.read_scopes, vec!["shared".to_string(), "team".to_string()]);
    let err = error_message(resolve_workspace_settings(
        "alice",
        None,
        Some("ok,bad scope".to_string()),
    ));
    assert_eq!(
        err,
        "WORKSPACE_READ_SCOPES: scope 'bad scope' contains invalid characters (allowed: a-z, A-Z, 0-9, _, -)"
    );
    let long = "a".repeat(129);
    match validate_read_scopes(&[long]) {
        Err(ConfigError::InvalidValue { message, .. }) => {
            assert_eq!(message, format!("scope '{}...' exceeds 128 characters", "a".repeat(32)))
        }
        Ok(()) => panic!("expected an error"),
    }
}

#[test]
fn hdc_dedup_mode_setting() {
    assert_eq!(resolve_dedup_mode(None).unwrap(), HdcDedupMode::Off);
    let setting = optional_hdc_env(
        "IRONCLAW_HDC_DEDUP_MODE",
        Some("block".to_string()),
        "HDC_DEDUP_MODE",
        Some("warn".to_string()),
    );
    assert_eq!(resolve_dedup_mode(setting).unwrap(), HdcDedupMode::Block);
    let legacy = optional_hdc_env(
        "IRONCLAW_HDC_DEDUP_MODE",
        None,
        "HDC_DEDUP_MODE",
        Some("WARN".to_string()),
    );
    assert_eq!(resolve_dedup_mode(legacy).unwrap(), HdcDedupMode::Warn);
    match resolve_dedup_mode(Some(("HDC_DEDUP_MODE", "loud".to_string()))) {
        Err(ConfigError::InvalidValue { key, message }) => {
            assert_eq!(key, "HDC_DEDUP_MODE");
            assert_eq!(message, "must be 'off', 'warn', or 'block', got 'loud'");
        }
        Ok(_) => panic!("expected an error"),
    }
}

#[test]
fn hdc_search_modes_exclude_each_other() {
    assert!(check_search_modes(true, false).is_ok());
    assert!(check_search_modes(false, true).is_ok());
    match check_search_modes(true, true) {
        Err(ConfigError::InvalidValue { key, .. }) => assert_eq!(key, "IRONCLAW_HDC_SEARCH_LIVE"),
        Ok(()) => panic!("expected an error"),
    }
}

#[test]
fn boolean_settings_parse_or_fail() {
    assert_eq!(parse_bool_setting("K", None, true).unwrap(), true);
    assert_eq!(parse_bool_setting("K", Some(" TRUE ".to_string()), false).unwrap(), true);
    assert_eq!(parse_bool_setting("K", Some("1".to_string()), false).unwrap(), true);
    assert_eq!(parse_bool_setting("K", Some("False".to_string()), true).unwrap(), false);
    assert_eq!(parse_bool_setting("K", Some("0".to_string()), true).unwrap(), false);
    match parse_bool_setting("K", Some("yes".to_string()), true) {
        Err(ConfigError::InvalidValue { key, message }) => {
            assert_eq!(key, "K");
            assert_eq!(message, "must be 'true' or 'false', got 'yes'");
        }
        other => panic!("expected an error, got {other:?}"),
    }
}
