use history_core::json::{Json, JsonNumber};
use history_core::presets::{
    compute_summary, validate_preset_id, validate_preset_input, PresetIdError, PresetInputError, UnifiedPresetInput,
};

fn to_json(v: &serde_json::Value) -> Json {
    match v {
        serde_json::Value::Null => Json::Null,
        serde_json::Value::Bool(b) => Json::Bool(*b),
        serde_json::Value::Number(n) => Json::Number(JsonNumber { text: n.to_string(), unsigned: n.as_u64() }),
        serde_json::Value::String(s) => Json::Str(s.clone()),
        serde_json::Value::Array(items) => Json::Array(items.iter().map(to_json).collect()),
        serde_json::Value::Object(members) => {
            Json::Object(members.iter().map(|(k, v)| (k.clone(), to_json(v))).collect())
        }
    }
}

fn parse(text: &str) -> Option<Json> {
    serde_json::from_str::<serde_json::Value>(text).ok().map(|v| to_json(&v))
}

fn check_input(input: &UnifiedPresetInput) -> Result<(), PresetInputError> {
    let settings = parse(&input.settings);
    let mcp = parse(&input.mcp_servers);
    validate_preset_input(settings.as_ref(), mcp.as_ref())
}

#[test]
fn test_compute_summary() {
    let settings = r#"{"model":"opus","hooks":{"UserPromptSubmit":[]}}"#;
    let mcp = r#"{"server1":{"command":"test"},"server2":{"command":"test2"}}"#;

    let summary = compute_summary(&parse(settings).unwrap_or(Json::Null), &parse(mcp).unwrap_or(Json::Null));

    assert_eq!(summary.model, Some("opus".to_string()));
    assert_eq!(summary.mcp_server_count, 2);
    assert!(summary.mcp_server_names.contains(&"server1".to_string()));
}

#[test]
fn summary_counts_settings_and_flags() {
    let settings = r#"{"model":"sonnet","env":{"A":"1"},"permissions":{"allow":[],"deny":["rm"]},"language":"en","hooks":{}}"#;
    let mcp = r#"{"a":{},"b":{},"c":{},"d":{},"e":{},"f":{}}"#;
    let summary = compute_summary(&parse(settings).unwrap(), &parse(mcp).unwrap());
    assert_eq!(summary.settings_count, 5);
    assert!(summary.has_permissions);
    assert!(summary.has_env_vars);
    assert!(!summary.has_hooks);
    assert_eq!(summary.mcp_server_count, 6);
    assert_eq!(summary.mcp_server_names, vec!["a", "b", "c", "d", "e"]);
}

#[test]
fn summary_of_unparsable_text_is_empty() {
    let summary = compute_summary(&Json::Null, &Json::Null);
    assert_eq!(summary.settings_count, 0);
    assert_eq!(summary.model, None);
    assert_eq!(summary.mcp_server_count, 0);
    assert!(summary.mcp_server_names.is_empty());
    assert!(!summary.has_permissions && !summary.has_hooks && !summary.has_env_vars);
}

#[test]
fn test_validate_preset_input_valid() {
    let input = UnifiedPresetInput {
        id: None,
        name: "Test".to_string(),
        description: None,
        settings: r#"{"model":"opus"}"#.to_string(),
        mcp_servers: r#"{"server1":{"command":"test"}}"#.to_string(),
    };
    assert!(check_input(&input).is_ok());
}

#[test]
fn test_validate_preset_input_invalid_settings() {
    let input = UnifiedPresetInput {
        id: None,
        name: "Test".to_string(),
        description: None,
        settings: "not valid json".to_string(),
        mcp_servers: "{}".to_string(),
    };
    let result = check_input(&input);
    assert!(result.is_err());
    assert!(result.unwrap_err().message().contains("Invalid settings JSON"));
}

#[test]
fn test_validate_preset_input_settings_not_object() {
    let input = UnifiedPresetInput {
        id: None,
        name: "Test".to_string(),
        description: None,
        settings: r#"["array", "not", "object"]"#.to_string(),
        mcp_servers: "{}".to_string(),
    };
    let result = check_input(&input);
    assert!(result.is_err());
    assert!(result.unwrap_err().message().contains("must be a JSON object"));
}

#[test]
fn test_validate_preset_input_invalid_mcp() {
    let input = UnifiedPresetInput {
        id: None,
        name: "Test".to_string(),
        description: None,
        settings: "{}".to_string(),
        mcp_servers: "{invalid json".to_string(),
    };
    let result = check_input(&input);
    assert!(result.is_err());
    assert!(result.unwrap_err().message().contains("Invalid mcp_servers JSON"));
}

#[test]
fn mcp_servers_must_be_an_object() {
    assert_eq!(validate_preset_input(Some(&Json::Object(vec![])), Some(&Json::Null)), Err(PresetInputError::McpServersNotObject));
}

#[test]
fn preset_ids_are_checked() {
    assert_eq!(validate_preset_id(""), Err(PresetIdError::Empty));
    assert_eq!(validate_preset_id(&"a".repeat(65)), Err(PresetIdError::TooLong));
    assert_eq!(validate_preset_id(&"a".repeat(64)), Ok(()));
    assert_eq!(validate_preset_id("../etc"), Err(PresetIdError::InvalidCharacters));
    assert_eq!(validate_preset_id("my-preset-01"), Ok(()));
    assert_eq!(validate_preset_id("é"), Ok(()));
    assert_eq!(PresetIdError::TooLong.message(), "Preset ID too long (max 64 characters)");
}

#[test]
fn saving_keeps_or_assigns_identity() {
    let summary = compute_summary(&Json::Null, &Json::Null);
    let update = UnifiedPresetInput {
        id: Some("kept".to_string()),
        name: "N".to_string(),
        description: None,
        settings: "{}".to_string(),
        mcp_servers: "{}".to_string(),
    };
    let p = history_core::presets::preset_for_save(update, summary.clone(), "fresh".to_string(), "t0".to_string(), "t1".to_string());
    assert_eq!((p.id.as_str(), p.created_at.as_str(), p.updated_at.as_str()), ("kept", "t0", "t1"));
    let create = UnifiedPresetInput {
        id: None,
        name: "N".to_string(),
        description: Some("d".to_string()),
        settings: "{}".to_string(),
        mcp_servers: "{}".to_string(),
    };
    let q = history_core::presets::preset_for_save(create, summary, "fresh".to_string(), String::new(), "t1".to_string());
    assert_eq!((q.id.as_str(), q.created_at.as_str(), q.updated_at.as_str()), ("fresh", "t1", "t1"));
    assert_eq!(q.description.as_deref(), Some("d"));
}
