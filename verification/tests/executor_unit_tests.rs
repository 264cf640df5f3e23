use just_mcp::executor::{find_recipe, substitute_parameters, validate_arguments};
use just_mcp::{Justfile, Parameter, Recipe, VarTable};

fn create_test_recipe(name: &str, params: Vec<Parameter>, body: &str, deps: Vec<&str>) -> Recipe {
    Recipe {
        name: name.to_string(),
        parameters: params,
        documentation: None,
        body: body.to_string(),
        dependencies: deps.iter().map(|s| s.to_string()).collect(),
    }
}

#[test]
fn test_find_recipe() {
    let recipe = create_test_recipe("build", vec![], "cargo build", vec![]);
    let justfile = Justfile {
        recipes: vec![recipe],
        variables: VarTable::new(),
    };

    assert!(find_recipe(&justfile, "build").is_ok());
    assert!(find_recipe(&justfile, "nonexistent").is_err());
}

#[test]
fn executor_test_validate_arguments_success() {
    let params = vec![
        Parameter {
            name: "env".to_string(),
            default_value: None,
        },
        Parameter {
            name: "target".to_string(),
            default_value: Some("prod".to_string()),
        },
    ];
    let recipe = create_test_recipe("deploy", params, "", vec![]);

    let args = vec!["staging".to_string()];
    let result = validate_arguments(&recipe, &args).unwrap();

    assert_eq!(result.get("env"), Some(&"staging".to_string()));
    assert_eq!(result.get("target"), Some(&"prod".to_string()));
}

#[test]
fn executor_test_validate_arguments_missing_required() {
    let params = vec![Parameter {
        name: "env".to_string(),
        default_value: None,
    }];
    let recipe = create_test_recipe("deploy", params, "", vec![]);

    let args = vec![];
    let result = validate_arguments(&recipe, &args);

    assert!(result.is_err());
    assert!(
        result
            .unwrap_err()
            .message()
            .contains("Missing required parameter")
    );
}

#[test]
fn test_substitute_parameters() {
    let mut param_values = VarTable::new();
    param_values.insert("env".to_string(), "staging".to_string());
    param_values.insert("port".to_string(), "8080".to_string());

    let mut variables = VarTable::new();
    variables.insert("version".to_string(), "\"1.0.0\"".to_string());

    let body = "echo 'Deploying {{ env }} on port {{ port }} version {{ version }}'";
    let result = substitute_parameters(body, &param_values, &variables).unwrap();

    assert_eq!(
        result,
        "echo 'Deploying staging on port 8080 version 1.0.0'"
    );
}

#[test]
fn test_substitute_parameters_unresolved() {
    let param_values = VarTable::new();
    let variables = VarTable::new();

    let body = "echo 'Missing {{ unknown_var }}'";
    let result = substitute_parameters(body, &param_values, &variables);

    assert!(result.is_err());
    assert!(
        result
            .unwrap_err()
            .message()
            .contains("Unresolved parameter")
    );
}

#[test]
fn test_too_many_arguments_message_counts() {
    let recipe = create_test_recipe("solo", vec![], "", vec![]);
    let err = validate_arguments(&recipe, &["a".to_string(), "b".to_string()]).unwrap_err();
    let text = err.message();
    assert!(text.contains("Expected at most 0 arguments, got 2"));
    assert!(text.contains("Invalid arguments for recipe 'solo'"));
}

#[test]
fn test_substitute_single_quoted_variable() {
    let params = VarTable::new();
    let mut variables = VarTable::new();
    variables.insert("who".to_string(), "'world'".to_string());
    let result = substitute_parameters("hi {{ who }}", &params, &variables).unwrap();
    assert_eq!(result, "hi world");
}

#[test]
fn test_substitute_parameter_wins_over_variable() {
    let mut params = VarTable::new();
    params.insert("x".to_string(), "param".to_string());
    let mut variables = VarTable::new();
    variables.insert("x".to_string(), "var".to_string());
    let result = substitute_parameters("{{ x }}", &params, &variables).unwrap();
    assert_eq!(result, "param");
}
