use rtx::completion::{Completion, Prerendered, Shell};

fn scripts() -> Prerendered {
    Prerendered {
        bash: "\n# bash completions\n".to_string(),
        elvish: "# elvish completions\n".to_string(),
        fish: "  # fish completions\n\n".to_string(),
        zsh: "#compdef rtx\n".to_string(),
    }
}

fn request(shell: Shell) -> Completion {
    Completion { shell: Some(shell), shell_type: None, usage: false }
}

/// The request that the arguments `completion <name>` stand for.
fn completion(command: &str, name: &str) -> Completion {
    assert_eq!(command, "completion");
    let shell = Shell::value_variants().into_iter().find(|shell| shell.to_string() == name);
    Completion { shell, shell_type: None, usage: false }
}

#[test]
fn test_completion() {
    let scripts = scripts();
    let zsh = completion("completion", "zsh")
        .run(Ok("#compdef rtx\n_rtx() {}\n\n".to_string()), &scripts);
    assert_eq!(zsh, Ok("#compdef rtx\n_rtx() {}".to_string()));
    let bash =
        completion("completion", "bash").run(Ok(" complete -F _rtx rtx \n".to_string()), &scripts);
    assert_eq!(bash, Ok("complete -F _rtx rtx".to_string()));
    let elvish =
        completion("completion", "elvish").run(Ok("edit:completion\n".to_string()), &scripts);
    assert_eq!(elvish, Ok("edit:completion".to_string()));
    let fish = completion("completion", "fish").run(Ok("complete -c rtx\n".to_string()), &scripts);
    assert_eq!(fish, Ok("complete -c rtx".to_string()));
}

#[test]
fn usage_is_the_rule_for_bash_and_fish() {
    assert!(request(Shell::Bash).uses_usage());
    assert!(request(Shell::Fish).uses_usage());
    assert!(!request(Shell::Zsh).uses_usage());
    assert!(!request(Shell::Elvish).uses_usage());
    let asked = Completion { shell: Some(Shell::Zsh), shell_type: None, usage: true };
    assert!(asked.uses_usage());
}

#[test]
fn the_shell_by_position_counts_first() {
    let both = Completion { shell: Some(Shell::Fish), shell_type: Some(Shell::Zsh), usage: false };
    assert_eq!(both.chosen_shell(), Shell::Fish);
    let flag = Completion { shell: None, shell_type: Some(Shell::Elvish), usage: false };
    assert_eq!(flag.chosen_shell(), Shell::Elvish);
}

#[test]
fn a_failing_usage_tool_is_made_up_for() {
    let scripts = scripts();
    let bash = request(Shell::Bash).run(Err("usage: not found".to_string()), &scripts);
    assert_eq!(bash, Ok("# bash completions".to_string()));
    let fish = request(Shell::Fish).run(Err("usage: not found".to_string()), &scripts);
    assert_eq!(fish, Ok("# fish completions".to_string()));
    let asked = Completion { shell: Some(Shell::Elvish), shell_type: None, usage: true };
    assert_eq!(
        asked.run(Err("boom".to_string()), &scripts),
        Ok("# elvish completions".to_string())
    );
}

#[test]
fn a_failing_generator_is_an_error() {
    let scripts = scripts();
    let zsh = request(Shell::Zsh).run(Err("cannot render".to_string()), &scripts);
    assert_eq!(zsh, Err("cannot render".to_string()));
}

#[test]
fn the_usage_tool_is_told_the_shell() {
    let request = request(Shell::Fish);
    let args = request.usage_arguments(Shell::Fish);
    assert_eq!(args, vec!["generate", "completion", "fish", "mise", "--usage-cmd", "mise usage"]);
}

#[test]
fn shells_are_named_in_lower_case() {
    assert_eq!(Shell::Bash.to_string(), "bash");
    assert_eq!(Shell::Elvish.to_string(), "elvish");
    assert_eq!(Shell::Fish.to_string(), "fish");
    assert_eq!(Shell::Zsh.to_string(), "zsh");
    assert_eq!(
        Shell::value_variants(),
        vec![Shell::Bash, Shell::Elvish, Shell::Fish, Shell::Zsh]
    );
}

#[test]
fn shipped_scripts_are_picked_by_shell() {
    let scripts = scripts();
    let request = request(Shell::Zsh);
    assert_eq!(request.prerendered(Shell::Zsh, &scripts), "#compdef rtx\n");
    assert_eq!(request.prerendered(Shell::Bash, &scripts), "\n# bash completions\n");
}
