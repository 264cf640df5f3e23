use just_mcp::executor::{execute_recipe, ExecutionError};
use just_mcp::parser::parse_justfile_str;
use tempfile::TempDir;

#[test]
fn test_comment_only_body_succeeds_silently() {
    let content = "quiet:\n\t# just a note\n\n\t#another\n";
    let justfile = parse_justfile_str(content).unwrap();
    let temp_dir = TempDir::new().unwrap();

    let result = execute_recipe(&justfile, "quiet", &[], temp_dir.path().to_str().unwrap())
        .unwrap();
    assert_eq!(result.exit_code, 0);
    assert_eq!(result.stdout, "");
    assert_eq!(result.stderr, "");
}

#[test]
fn test_dependency_output_order() {
    let content = "a:\n\techo A\nb: a\n\techo B\nc: b\n\techo C\n";
    let justfile = parse_justfile_str(content).unwrap();
    let temp_dir = TempDir::new().unwrap();

    let result = execute_recipe(&justfile, "c", &[], temp_dir.path().to_str().unwrap()).unwrap();
    assert_eq!(result.exit_code, 0);
    let pos_a = result.stdout.find("A").unwrap();
    let pos_b = result.stdout.find("B").unwrap();
    let pos_c = result.stdout.find("C").unwrap();
    assert!(pos_a < pos_b);
    assert!(pos_b < pos_c);
}

#[test]
fn test_quiet_command_stderr_still_captured() {
    let content = "warn:\n\t@echo oops 1>&2\n";
    let justfile = parse_justfile_str(content).unwrap();
    let temp_dir = TempDir::new().unwrap();

    let result = execute_recipe(&justfile, "warn", &[], temp_dir.path().to_str().unwrap())
        .unwrap();
    assert_eq!(result.exit_code, 0);
    assert_eq!(result.stdout, "");
    assert!(result.stderr.contains("oops"));
}

#[test]
fn test_greet_scenario_default_and_argument() {
    let content = "greet name=\"World\":\n\techo \"Hello, {{ name }}!\"\n";
    let justfile = parse_justfile_str(content).unwrap();
    let temp_dir = TempDir::new().unwrap();
    let cwd = temp_dir.path().to_str().unwrap();

    let result = execute_recipe(&justfile, "greet", &[], cwd).unwrap();
    assert!(result.stdout.contains("Hello, World!"));
    assert_eq!(result.exit_code, 0);

    let result = execute_recipe(&justfile, "greet", &["Rust".to_string()], cwd).unwrap();
    assert!(result.stdout.contains("Hello, Rust!"));
}

#[test]
fn test_fail_fast_stops_remaining_lines() {
    let content = "brittle:\n\tfalse\n\techo after\n";
    let justfile = parse_justfile_str(content).unwrap();
    let temp_dir = TempDir::new().unwrap();

    let result = execute_recipe(&justfile, "brittle", &[], temp_dir.path().to_str().unwrap())
        .unwrap();
    assert_ne!(result.exit_code, 0);
    assert!(!result.stdout.contains("after"));
}

#[test]
fn test_recipe_not_found_names_the_recipe() {
    let content = "real:\n\techo hi\n";
    let justfile = parse_justfile_str(content).unwrap();
    let temp_dir = TempDir::new().unwrap();

    let err = execute_recipe(&justfile, "ghost", &[], temp_dir.path().to_str().unwrap())
        .unwrap_err();
    match &err {
        ExecutionError::RecipeNotFound { recipe_name } => assert_eq!(recipe_name, "ghost"),
        _ => panic!("expected RecipeNotFound"),
    }
    assert!(err.message().contains("Recipe 'ghost' not found"));
}

#[test]
fn test_missing_required_parameter_names_it() {
    let content = "ship target:\n\techo {{ target }}\n";
    let justfile = parse_justfile_str(content).unwrap();
    let temp_dir = TempDir::new().unwrap();

    let err = execute_recipe(&justfile, "ship", &[], temp_dir.path().to_str().unwrap())
        .unwrap_err();
    match &err {
        ExecutionError::InvalidArguments {
            recipe_name,
            message,
        } => {
            assert_eq!(recipe_name, "ship");
            assert_eq!(message, "Missing required parameter: target");
        }
        _ => panic!("expected InvalidArguments"),
    }
}

#[test]
fn test_dependency_failure_wraps_cause() {
    let content = "top: missing_dep\n\techo done\n";
    let justfile = parse_justfile_str(content).unwrap();
    let temp_dir = TempDir::new().unwrap();

    let err = execute_recipe(&justfile, "top", &[], temp_dir.path().to_str().unwrap())
        .unwrap_err();
    match &err {
        ExecutionError::DependencyFailed {
            recipe_name,
            dependency,
            source,
        } => {
            assert_eq!(recipe_name, "top");
            assert_eq!(dependency, "missing_dep");
            assert!(matches!(
                **source,
                ExecutionError::RecipeNotFound { .. }
            ));
        }
        _ => panic!("expected DependencyFailed"),
    }
    let text = err.message();
    assert!(text.contains("Dependency 'missing_dep' failed for recipe 'top'"));
    assert!(text.contains("Recipe 'missing_dep' not found"));
}

#[test]
fn test_unresolved_reference_fails_substitution() {
    let content = "broken:\n\techo {{ nobody }}\n";
    let justfile = parse_justfile_str(content).unwrap();
    let temp_dir = TempDir::new().unwrap();

    let err = execute_recipe(&justfile, "broken", &[], temp_dir.path().to_str().unwrap())
        .unwrap_err();
    match &err {
        ExecutionError::SubstitutionFailed { message } => {
            assert_eq!(message, "Unresolved parameter or variable references found");
        }
        _ => panic!("expected SubstitutionFailed"),
    }
}

#[test]
fn test_circular_dependency_reported() {
    let content = "spin: spin\n\techo never\n";
    let justfile = parse_justfile_str(content).unwrap();
    let temp_dir = TempDir::new().unwrap();

    let err = execute_recipe(&justfile, "spin", &[], temp_dir.path().to_str().unwrap())
        .unwrap_err();
    let mut cause: &ExecutionError = &err;
    let mut saw_circular = false;
    loop {
        match cause {
            ExecutionError::DependencyFailed { source, .. } => cause = source,
            ExecutionError::CircularDependency { recipe_name } => {
                assert_eq!(recipe_name, "spin");
                saw_circular = true;
                break;
            }
            other => panic!("unexpected error in chain: {:?}", other),
        }
    }
    assert!(saw_circular);
}

#[test]
fn test_shared_dependency_runs_twice() {
    // No memoization: a recipe named by two ancestors in one call runs
    // once for each.
    let content = "a:\n\techo A\nb: a\n\techo B\nc: a\n\techo C\nd: b c\n\techo D\n";
    let justfile = parse_justfile_str(content).unwrap();
    let temp_dir = TempDir::new().unwrap();

    let result = execute_recipe(&justfile, "d", &[], temp_dir.path().to_str().unwrap()).unwrap();
    assert_eq!(result.exit_code, 0);
    assert_eq!(result.stdout.matches('A').count(), 2);
}

#[test]
fn test_shell_really_runs_the_command() {
    // The captured output is what the shell computed, not the command text.
    let content = "calc:\n\texpr 6 \\* 7\n";
    let justfile = parse_justfile_str(content).unwrap();
    let temp_dir = TempDir::new().unwrap();

    let result = execute_recipe(&justfile, "calc", &[], temp_dir.path().to_str().unwrap())
        .unwrap();
    assert_eq!(result.exit_code, 0);
    assert!(result.stdout.contains("42"));
    assert!(!result.stdout.contains("expr"));
}

#[test]
fn test_own_exit_code_wins_over_dependency() {
    // The recipe's own non-zero exit code is the overall one, even when a
    // dependency recorded a different non-zero code first.
    let content = "bad:\n\tfalse\nworse: bad\n\texit 3\n";
    let justfile = parse_justfile_str(content).unwrap();
    let temp_dir = TempDir::new().unwrap();

    let result = execute_recipe(&justfile, "worse", &[], temp_dir.path().to_str().unwrap())
        .unwrap();
    assert_eq!(result.exit_code, 3);
}

#[test]
fn test_dependency_exit_code_kept_when_own_succeeds() {
    let content = "bad:\n\tfalse\ngood: bad\n\techo fine\n";
    let justfile = parse_justfile_str(content).unwrap();
    let temp_dir = TempDir::new().unwrap();

    let result = execute_recipe(&justfile, "good", &[], temp_dir.path().to_str().unwrap())
        .unwrap();
    assert_ne!(result.exit_code, 0);
    assert!(result.stdout.contains("fine"));
}
