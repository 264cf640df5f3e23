use just_mcp::validator::{
    format_signature_help, get_signature_help, validate_arguments, validate_with_help,
};
use just_mcp::{Parameter, Recipe};

fn create_test_recipe(name: &str, params: Vec<Parameter>) -> Recipe {
    Recipe {
        name: name.to_string(),
        parameters: params,
        documentation: Some(format!("Test recipe {}", name)),
        body: String::new(),
        dependencies: Vec::new(),
    }
}

#[test]
fn validator_test_validate_arguments_success() {
    let params = vec![
        Parameter {
            name: "env".to_string(),
            default_value: None,
        },
        Parameter {
            name: "target".to_string(),
            default_value: Some("prod".to_string()),
        },
    ];
    let recipe = create_test_recipe("deploy", params);

    // Valid: provide required parameter, use default for optional
    let result = validate_arguments(&recipe, &["staging".to_string()]);
    assert!(result.is_valid);
    assert!(result.errors.is_empty());

    // Valid: provide both parameters
    let result = validate_arguments(&recipe, &["staging".to_string(), "dev".to_string()]);
    assert!(result.is_valid);
    assert!(result.errors.is_empty());
}

#[test]
fn validator_test_validate_arguments_missing_required() {
    let params = vec![
        Parameter {
            name: "env".to_string(),
            default_value: None,
        },
        Parameter {
            name: "target".to_string(),
            default_value: Some("prod".to_string()),
        },
    ];
    let recipe = create_test_recipe("deploy", params);

    let result = validate_arguments(&recipe, &[]);
    assert!(!result.is_valid);
    assert_eq!(result.errors.len(), 1);
    assert_eq!(result.errors[0].parameter, "env");
    assert!(result.errors[0]
        .message
        .contains("Missing required parameter"));
}

#[test]
fn test_validate_arguments_too_many() {
    let params = vec![Parameter {
        name: "env".to_string(),
        default_value: None,
    }];
    let recipe = create_test_recipe("deploy", params);

    let result = validate_arguments(&recipe, &["staging".to_string(), "extra".to_string()]);
    assert!(!result.is_valid);
    assert_eq!(result.errors.len(), 1);
    assert_eq!(result.errors[0].parameter, "<extra>");
    assert!(result.errors[0].message.contains("Too many arguments"));
}

#[test]
fn test_validate_arguments_no_parameters() {
    let recipe = create_test_recipe("build", vec![]);

    // Valid: no args for no params
    let result = validate_arguments(&recipe, &[]);
    assert!(result.is_valid);

    // Invalid: args for no params
    let result = validate_arguments(&recipe, &["unexpected".to_string()]);
    assert!(!result.is_valid);
}

#[test]
fn test_get_signature_help() {
    let params = vec![
        Parameter {
            name: "env".to_string(),
            default_value: None,
        },
        Parameter {
            name: "target".to_string(),
            default_value: Some("prod".to_string()),
        },
        Parameter {
            name: "verbose".to_string(),
            default_value: Some("false".to_string()),
        },
    ];
    let recipe = create_test_recipe("deploy", params);

    let help = get_signature_help(&recipe);

    assert_eq!(help.recipe_name, "deploy");
    assert_eq!(help.parameters.len(), 3);
    assert_eq!(help.documentation, Some("Test recipe deploy".to_string()));

    // Check parameter info
    assert_eq!(help.parameters[0].name, "env");
    assert!(help.parameters[0].required);
    assert_eq!(help.parameters[0].default_value, None);

    assert_eq!(help.parameters[1].name, "target");
    assert!(!help.parameters[1].required);
    assert_eq!(help.parameters[1].default_value, Some("prod".to_string()));

    assert_eq!(help.parameters[2].name, "verbose");
    assert!(!help.parameters[2].required);
    assert_eq!(help.parameters[2].default_value, Some("false".to_string()));
}

#[test]
fn test_format_signature_help() {
    let params = vec![
        Parameter {
            name: "env".to_string(),
            default_value: None,
        },
        Parameter {
            name: "target".to_string(),
            default_value: Some("prod".to_string()),
        },
    ];
    let recipe = create_test_recipe("deploy", params);
    let help = get_signature_help(&recipe);

    let formatted = format_signature_help(&help);

    assert!(formatted.contains("deploy(env, target=prod)"));
    assert!(formatted.contains("Test recipe deploy"));
    assert!(formatted.contains("env (required)"));
    assert!(formatted.contains("target (optional, default: prod)"));
}

#[test]
fn test_validate_with_help() {
    let params = vec![Parameter {
        name: "env".to_string(),
        default_value: None,
    }];
    let recipe = create_test_recipe("deploy", params);

    let result = validate_with_help(&recipe, &[]);
    assert!(!result.is_valid);
    assert_eq!(result.errors.len(), 1);
    assert!(result.errors[0]
        .message
        .contains("Missing required parameter"));
    assert!(result.errors[0].message.contains("Expected signature"));
    assert!(result.errors[0].message.contains("deploy(env)"));
}
