use indexmap::IndexMap;
use rtx::exec::{exit_result, parse_command, Exec, ExecError};
use rtx::settings::MissingRuntimeBehavior;

fn words(list: &[&str]) -> Vec<String> {
    list.iter().map(|w| w.to_string()).collect()
}

#[test]
fn test_exec_ok() {
    let exec = Exec { runtime: vec![], command: Some(words(&["ls"])), c: None };
    let plan = exec.run("/bin/sh", IndexMap::new(), "/usr/bin".to_string(),
        MissingRuntimeBehavior::Prompt);
    assert_eq!(plan.program, "ls");
    assert!(plan.args.is_empty());
    assert_eq!(exit_result(Some(0)), Ok(()));
}

#[test]
fn test_exec_fail() {
    let exec = Exec { runtime: vec![], command: Some(words(&["ls", "--invalid"])), c: None };
    let plan = exec.run("/bin/sh", IndexMap::new(), "/usr/bin".to_string(),
        MissingRuntimeBehavior::Prompt);
    assert_eq!(plan.program, "ls");
    assert_eq!(plan.args, words(&["--invalid"]));
    let error = exit_result(Some(2)).unwrap_err();
    assert_eq!(error, ExecError::Failed { code: 2 });
    assert_eq!(error.message(), "command failed with exit code 2");
}

#[test]
fn a_command_string_goes_to_the_shell() {
    let (program, args) = parse_command("/bin/zsh", None, Some("node -v && python -V".to_string()));
    assert_eq!(program, "/bin/zsh");
    assert_eq!(args, words(&["-c", "node -v && python -V"]));
}

#[test]
fn words_win_over_a_command_string() {
    let (program, args) =
        parse_command("/bin/zsh", Some(words(&["node", "./app.js", "-x"])), Some("x".to_string()));
    assert_eq!(program, "node");
    assert_eq!(args, words(&["./app.js", "-x"]));
}

#[test]
fn the_environment_gets_the_path_and_the_warning() {
    let mut vars: IndexMap<String, String> = IndexMap::new();
    vars.insert("NODE_HOME".to_string(), "/n".to_string());
    vars.insert("PATH".to_string(), "stale".to_string());
    let exec = Exec { runtime: vec![], command: None, c: Some("true".to_string()) };
    let plan = exec.run("/bin/sh", vars, "/n/bin:/usr/bin".to_string(), MissingRuntimeBehavior::Warn);
    let rows: Vec<(&str, &str)> = plan.env.iter().map(|(k, v)| (k.as_str(), v.as_str())).collect();
    assert_eq!(
        rows,
        vec![
            ("NODE_HOME", "/n"),
            ("PATH", "/n/bin:/usr/bin"),
            ("RTX_MISSING_RUNTIME_BEHAVIOR", "warn"),
        ]
    );
}

#[test]
fn ignoring_missing_runtimes_adds_no_warning() {
    let exec = Exec { runtime: vec![], command: None, c: Some("true".to_string()) };
    let plan = exec.run("/bin/sh", IndexMap::new(), "/bin".to_string(), MissingRuntimeBehavior::Ignore);
    let rows: Vec<(&str, &str)> = plan.env.iter().map(|(k, v)| (k.as_str(), v.as_str())).collect();
    assert_eq!(rows, vec![("PATH", "/bin")]);
}

#[test]
fn exit_codes_are_read() {
    assert_eq!(exit_result(None), Err(ExecError::Failed { code: 1 }));
    assert_eq!(exit_result(Some(-3)), Err(ExecError::Failed { code: -3 }));
    assert_eq!(ExecError::Failed { code: -3 }.message(), "command failed with exit code -3");
    assert_eq!(ExecError::Failed { code: 127 }.message(), "command failed with exit code 127");
    assert_eq!(
        ExecError::Failed { code: i32::MIN }.message(),
        "command failed with exit code -2147483648"
    );
    assert_eq!(
        ExecError::Failed { code: i32::MAX }.message(),
        "command failed with exit code 2147483647"
    );
}
