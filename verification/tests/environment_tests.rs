use just_mcp::environment::{
    validate_mcp_environment, McpEnvironment, MCP_ENVIRONMENT_VARIABLES,
};
use just_mcp::VarTable;

#[test]
fn test_mcp_environment_new() {
    let env = McpEnvironment::new();
    assert!(env.variables.is_empty());
    assert!(env.sources.is_empty());
    assert!(env.snapshot.is_none());
}

#[test]
fn test_mcp_environment_set_get() {
    let mut env = McpEnvironment::new();
    env.set("MCP_SERVER_NAME".to_string(), "just-mcp".to_string());

    assert_eq!(env.get("MCP_SERVER_NAME"), Some(&"just-mcp".to_string()));
    assert_eq!(env.get("NONEXISTENT"), None);
}

#[test]
fn test_mcp_environment_snapshot() {
    let mut env = McpEnvironment::new();
    env.set("MCP_SERVER_NAME".to_string(), "just-mcp".to_string());

    // Create snapshot
    env.create_snapshot();
    assert!(env.snapshot.is_some());

    // Modify environment
    env.set("MCP_SERVER_NAME".to_string(), "modified".to_string());
    assert_eq!(env.get("MCP_SERVER_NAME"), Some(&"modified".to_string()));

    // Restore from snapshot
    env.restore_from_snapshot().unwrap();
    assert_eq!(env.get("MCP_SERVER_NAME"), Some(&"just-mcp".to_string()));

    // Clear snapshot
    env.clear_snapshot();
    assert!(env.snapshot.is_none());

    // Try to restore without snapshot should fail
    assert!(env.restore_from_snapshot().is_err());
}

#[test]
fn test_mcp_environment_server_config() {
    let mut env = McpEnvironment::new();

    let mut config_vars = VarTable::new();
    config_vars.insert("MCP_LOG_LEVEL".to_string(), "debug".to_string());
    config_vars.insert("MCP_TIMEOUT_SECONDS".to_string(), "30".to_string());

    env.set_server_config("production".to_string(), config_vars);

    assert_eq!(env.get("MCP_LOG_LEVEL"), Some(&"debug".to_string()));
    assert_eq!(env.get("MCP_TIMEOUT_SECONDS"), Some(&"30".to_string()));
    assert_eq!(env.sources.len(), 1);
}

#[test]
fn test_mcp_environment_info() {
    let mut env = McpEnvironment::new();
    env.set("MCP_SERVER_NAME".to_string(), "just-mcp".to_string());
    env.set("MCP_LOG_LEVEL".to_string(), "info".to_string());

    let mut custom_vars = VarTable::new();
    custom_vars.insert("CUSTOM_VAR".to_string(), "custom_value".to_string());
    env.set_custom(custom_vars);

    let info = env.get_environment_info();

    assert_eq!(info.get("variable_count"), Some(&"3".to_string()));
    assert_eq!(info.get("source_count"), Some(&"1".to_string()));
    assert_eq!(info.get("has_snapshot"), Some(&"false".to_string()));
    assert_eq!(info.get("mcp_mcp_server_name"), Some(&"just-mcp".to_string()));
    assert_eq!(info.get("mcp_mcp_log_level"), Some(&"info".to_string()));
}

#[test]
fn test_mcp_variable_expansion() {
    let mut env = McpEnvironment::new();
    env.set("MCP_SERVER_NAME".to_string(), "just-mcp".to_string());
    env.set("MCP_LOG_LEVEL".to_string(), "debug".to_string());

    let result = env
        .expand_variables("Server: ${MCP_SERVER_NAME} (${MCP_LOG_LEVEL})")
        .unwrap();
    assert_eq!(result, "Server: just-mcp (debug)");

    let result = env.expand_variables("$MCP_SERVER_NAME running").unwrap();
    assert_eq!(result, "just-mcp running");
}

#[test]
fn test_validate_mcp_environment() {
    let mut env = McpEnvironment::new();
    env.set("MCP_SERVER_NAME".to_string(), "just-mcp".to_string());
    env.set("MCP_LOG_LEVEL".to_string(), "info".to_string());

    // Should pass with required variables present
    let result = validate_mcp_environment(&env, &["MCP_SERVER_NAME", "MCP_LOG_LEVEL"]);
    assert!(result.is_ok());

    // Should fail with missing required variable
    let result = validate_mcp_environment(&env, &["MCP_SERVER_NAME", "MCP_MISSING_VAR"]);
    assert!(result.is_err());
    assert!(result.unwrap_err().message().contains("MCP_MISSING_VAR"));
}

#[test]
fn test_mcp_environment_constants() {
    // Test that our MCP environment constants are comprehensive
    assert!(MCP_ENVIRONMENT_VARIABLES.contains(&"MCP_SERVER_NAME"));
    assert!(MCP_ENVIRONMENT_VARIABLES.contains(&"MCP_LOG_LEVEL"));
    assert!(MCP_ENVIRONMENT_VARIABLES.contains(&"MCP_TIMEOUT_SECONDS"));
    assert!(MCP_ENVIRONMENT_VARIABLES.contains(&"MCP_MAX_MESSAGE_SIZE"));
    assert!(MCP_ENVIRONMENT_VARIABLES.len() >= 5);
}

#[test]
fn test_mcp_environment_snapshot_workflow() {
    let mut env = McpEnvironment::new();

    // Set initial MCP configuration
    env.set("MCP_SERVER_NAME".to_string(), "test-server".to_string());
    env.set("MCP_LOG_LEVEL".to_string(), "info".to_string());

    // Create snapshot for testing
    env.create_snapshot();

    // Modify environment for testing
    env.set("MCP_LOG_LEVEL".to_string(), "debug".to_string());
    env.set("MCP_TIMEOUT_SECONDS".to_string(), "60".to_string());

    assert_eq!(env.get("MCP_LOG_LEVEL"), Some(&"debug".to_string()));
    assert_eq!(env.get("MCP_TIMEOUT_SECONDS"), Some(&"60".to_string()));

    // Restore original environment
    env.restore_from_snapshot().unwrap();

    assert_eq!(env.get("MCP_LOG_LEVEL"), Some(&"info".to_string()));
    assert_eq!(env.get("MCP_TIMEOUT_SECONDS"), None);

    // Test variable expansion with MCP variables
    let expanded = env
        .expand_variables("Server: ${MCP_SERVER_NAME} at ${MCP_LOG_LEVEL} level")
        .unwrap();
    assert_eq!(expanded, "Server: test-server at info level");
}

#[test]
fn test_mcp_environment_validation_failures() {
    let mut env = McpEnvironment::new();
    env.set("MCP_SERVER_NAME".to_string(), "test-server".to_string());

    // Test missing required variables
    let required_vars = ["MCP_SERVER_NAME", "MCP_LOG_LEVEL", "MCP_MISSING_VAR"];
    let validation = validate_mcp_environment(&env, &required_vars);

    assert!(validation.is_err());
    let error_msg = validation.unwrap_err().message();
    assert!(error_msg.contains("MCP_LOG_LEVEL"));
    assert!(error_msg.contains("MCP_MISSING_VAR"));
    assert!(!error_msg.contains("MCP_SERVER_NAME")); // This one is present
}

#[test]
fn test_mcp_environment_variable_expansion_edge_cases() {
    let mut env = McpEnvironment::new();
    env.set("MCP_PREFIX".to_string(), "test".to_string());
    env.set("MCP_SUFFIX".to_string(), "server".to_string());

    // Test mixed syntax
    let result = env.expand_variables("${MCP_PREFIX}_$MCP_SUFFIX").unwrap();
    assert_eq!(result, "test_server");

    // Test missing variables (should expand to empty)
    let result = env.expand_variables("${MCP_MISSING}_value").unwrap();
    assert_eq!(result, "_value");

    // Test complex expansion
    let result = env
        .expand_variables("Config: ${MCP_PREFIX}-${MCP_SUFFIX}-config")
        .unwrap();
    assert_eq!(result, "Config: test-server-config");
}

#[test]
fn test_server_config_source() {
    let mut env = McpEnvironment::new();

    let mut config_1 = VarTable::new();
    config_1.insert("MCP_CONFIG_1".to_string(), "value1".to_string());

    let mut config_2 = VarTable::new();
    config_2.insert("MCP_CONFIG_2".to_string(), "value2".to_string());

    env.set_server_config("config1".to_string(), config_1);
    env.set_server_config("config2".to_string(), config_2);

    // Should have variables from both configs
    assert_eq!(env.get("MCP_CONFIG_1"), Some(&"value1".to_string()));
    assert_eq!(env.get("MCP_CONFIG_2"), Some(&"value2".to_string()));

    // Should have source entries for both configs
    assert_eq!(env.sources.len(), 2);

    let info = env.get_environment_info();
    assert!(info.get("sources").unwrap().contains("ServerConfig"));
}

#[test]
fn test_expansion_circular_reference_detected() {
    let mut env = McpEnvironment::new();
    env.set("MCP_LOOP".to_string(), "${MCP_LOOP}".to_string());

    let result = env.expand_variables("${MCP_LOOP}");
    assert!(result.is_err());
    assert!(result
        .unwrap_err()
        .message()
        .contains("Too many variable expansion iterations"));
}

#[test]
fn test_expansion_nested_value_resolves() {
    let mut env = McpEnvironment::new();
    env.set("MCP_INNER".to_string(), "deep".to_string());
    env.set("MCP_OUTER".to_string(), "${MCP_INNER}".to_string());

    let result = env.expand_variables("value: ${MCP_OUTER}").unwrap();
    assert_eq!(result, "value: deep");
}
