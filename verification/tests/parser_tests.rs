use just_mcp::parser::parse_justfile_str;

#[test]
fn test_parse_simple_recipe() {
    let content = r#"
# Build the project
build:
    cargo build
"#;

    let justfile = parse_justfile_str(content).unwrap();
    assert_eq!(justfile.recipes.len(), 1);

    let recipe = &justfile.recipes[0];
    assert_eq!(recipe.name, "build");
    assert_eq!(recipe.documentation, Some("Build the project".to_string()));
    assert!(recipe.parameters.is_empty());
    assert!(recipe.dependencies.is_empty());
    assert!(recipe.body.contains("cargo build"));
}

#[test]
fn test_parse_recipe_with_parameters() {
    let content = r#"
deploy env target='production':
    echo "Deploying to {{ env }} {{ target }}"
"#;

    let justfile = parse_justfile_str(content).unwrap();
    assert_eq!(justfile.recipes.len(), 1);

    let recipe = &justfile.recipes[0];
    assert_eq!(recipe.name, "deploy");
    assert_eq!(recipe.parameters.len(), 2);
    assert_eq!(recipe.parameters[0].name, "env");
    assert_eq!(recipe.parameters[0].default_value, None);
    assert_eq!(recipe.parameters[1].name, "target");
    assert_eq!(
        recipe.parameters[1].default_value,
        Some("production".to_string())
    );
}

#[test]
fn test_parse_recipe_with_dependencies() {
    let content = r#"
test: build
    cargo test

build:
    cargo build
"#;

    let justfile = parse_justfile_str(content).unwrap();
    assert_eq!(justfile.recipes.len(), 2);

    let test_recipe = &justfile.recipes[0];
    assert_eq!(test_recipe.name, "test");
    assert_eq!(test_recipe.dependencies, vec!["build"]);
}

#[test]
fn test_parse_variables() {
    let content = r#"
version = "1.0.0"
debug = true

build:
    echo "Building version {{ version }}"
"#;

    let justfile = parse_justfile_str(content).unwrap();
    assert_eq!(justfile.variables.len(), 2);
    assert_eq!(
        justfile.variables.get("version"),
        Some(&"\"1.0.0\"".to_string())
    );
    assert_eq!(justfile.variables.get("debug"), Some(&"true".to_string()));
}

#[test]
fn test_parse_error_on_unrecognised_line() {
    let content = "build:\n\techo hi\nwhat is this\n";
    let err = parse_justfile_str(content).unwrap_err();
    match err {
        just_mcp::parser::ParserError::ParseError { line, message } => {
            assert_eq!(line, 3);
            assert_eq!(message, "Unexpected content: what is this");
        }
        _ => panic!("expected a parse error with a line number"),
    }
}

#[test]
fn test_parse_variadic_parameter_marker_stripped() {
    let content = "pack *files:\n\ttar cf out.tar {{ files }}\n";
    let justfile = parse_justfile_str(content).unwrap();
    assert_eq!(justfile.recipes[0].parameters[0].name, "files");
    assert_eq!(justfile.recipes[0].parameters[0].default_value, None);
}

#[test]
fn test_parse_duplicate_recipes_kept() {
    let content = "a:\n\techo one\na:\n\techo two\n";
    let justfile = parse_justfile_str(content).unwrap();
    assert_eq!(justfile.recipes.len(), 2);
    assert_eq!(justfile.recipes[0].name, "a");
    assert_eq!(justfile.recipes[1].name, "a");
    assert!(justfile.recipes[0].body.contains("one"));
    assert!(justfile.recipes[1].body.contains("two"));
}

#[test]
fn test_parse_empty_input() {
    let justfile = parse_justfile_str("").unwrap();
    assert_eq!(justfile.recipes.len(), 0);
    assert_eq!(justfile.variables.len(), 0);
}

#[test]
fn test_header_precedence_over_body_line() {
    // An indented line whose trimmed text holds a colon is classified as
    // a recipe header, not as a body line: header recognition precedes
    // the body-line rule.
    let content = "a:\n\techo x:y\n";
    let justfile = parse_justfile_str(content).unwrap();
    assert_eq!(justfile.recipes.len(), 2);
    assert_eq!(justfile.recipes[0].name, "a");
    assert_eq!(justfile.recipes[0].body, "");
    assert_eq!(justfile.recipes[1].name, "echo");
    assert_eq!(justfile.recipes[1].parameters[0].name, "x");
    assert_eq!(justfile.recipes[1].dependencies, vec!["y"]);
}

#[test]
fn test_parse_variable_overwrite_keeps_last() {
    let content = "x = 1\nx = 2\n";
    let justfile = parse_justfile_str(content).unwrap();
    assert_eq!(justfile.variables.len(), 1);
    assert_eq!(justfile.variables.get("x"), Some(&"2".to_string()));
}
