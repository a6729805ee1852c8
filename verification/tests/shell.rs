use rtx::shell::bash::Bash;
use rtx::shell::elvish::{break_lines, Elvish};
use rtx::shell::zsh::Zsh;
use rtx::shell::Shell;

#[test]
fn elvish_test_hook_init() {
    let elvish = Elvish::default();
    let expected = concat_lines(&[
        "set-env RTX_SHELL elvish",
        "",
        "edit:add-var rtx~ {|@args|",
        "  var command",
        "  if (> (count $args) 0) {",
        "    set command = $args[0]",
        "  }",
        "  if (or (eq $command \"deactivate\") (eq $command \"shell\")) {",
        "    eval (/some/dir/rtx $@args | slurp)",
        "  } else {",
        "    /some/dir/rtx $@args",
        "  }",
        "}",
        "",
        "fn rtx_hook {||",
        "  eval (/some/dir/rtx hook-env --status -s elvish | slurp)",
        "}",
        "edit:add-var _rtx_hook $rtx_hook~",
        "",
        "set edit:before-readline = [ $@edit:before-readline $rtx_hook~ ]",
        "rtx_hook",
    ]);
    assert_eq!(elvish.activate("/some/dir/rtx", " --status".into()), expected);
}

fn concat_lines(lines: &[&str]) -> String {
    let mut out = String::new();
    for line in lines {
        out.push_str(line);
        out.push('\n');
    }
    out
}

#[test]
fn zsh_test_hook_init() {
    let zsh = Zsh::default();
    let expected = concat_lines(&[
        "export PATH=\"/some/dir:$PATH\"",
        "export RTX_SHELL=zsh",
        "",
        "rtx() {",
        "  local command",
        "  command=\"${1:-}\"",
        "  if [ \"$#\" = 0 ]; then",
        "    command /some/dir/rtx",
        "    return",
        "  fi",
        "  shift",
        "",
        "  case \"$command\" in",
        "  deactivate|shell)",
        "    eval \"$(/some/dir/rtx \"$command\" \"$@\")\"",
        "    ;;",
        "  *)",
        "    command /some/dir/rtx \"$command\" \"$@\"",
        "    ;;",
        "  esac",
        "}",
        "",
        "_rtx_hook() {",
        "  trap -- '' SIGINT;",
        "  eval \"$(\"/some/dir/rtx\" hook-env --status -s zsh)\";",
        "  trap - SIGINT;",
        "}",
        "typeset -ag precmd_functions;",
        "if [[ -z \"${precmd_functions[(r)_rtx_hook]+1}\" ]]; then",
        "  precmd_functions=( _rtx_hook ${precmd_functions[@]} )",
        "fi",
        "typeset -ag chpwd_functions;",
        "if [[ -z \"${chpwd_functions[(r)_rtx_hook]+1}\" ]]; then",
        "  chpwd_functions=( _rtx_hook ${chpwd_functions[@]} )",
        "fi",
        "",
        "_rtx_hook",
    ]);
    assert_eq!(zsh.activate("/some/dir/rtx", "/some/dir", false, true), expected);
}

#[test]
fn zsh_activation_leaves_the_path_alone_when_the_directory_is_on_it() {
    let script = Zsh::default().activate("/some/dir/rtx", "/some/dir", true, false);
    assert!(script.starts_with("export RTX_SHELL=zsh\n"));
    assert!(script.contains("eval \"$(\"/some/dir/rtx\" hook-env -s zsh)\";"));
    assert!(!script.contains("export PATH"));
}

#[test]
fn test_set_env() {
    assert_eq!(Zsh::default().set_env("FOO", "1"), "export FOO=1\n");
}

#[test]
fn test_unset_env() {
    assert_eq!(Zsh::default().unset_env("FOO"), "unset FOO\n");
}

#[test]
fn test_deactivate() {
    let deactivate = Zsh::default().deactivate();
    let expected = concat_lines(&[
        "precmd_functions=( ${precmd_functions[(r)_rtx_hook]} )",
        "chpwd_functions=( ${chpwd_functions[(r)_rtx_hook]} )",
        "unset -f _rtx_hook",
        "unset -f rtx",
        "unset RTX_SHELL",
    ]);
    assert_eq!(deactivate, expected);
}

#[test]
fn values_with_special_characters_are_quoted() {
    assert_eq!(Bash::default().set_env("FOO", "a b"), "export FOO='a b'\n");
    assert_eq!(Bash::default().set_env("FOO", ""), "export FOO=''\n");
    assert_eq!(Bash::default().set_env("FOO", "it's"), "export FOO='it'\\''s'\n");
    assert_eq!(Bash::default().set_env("FOO", "hey!"), "export FOO='hey'\\!''\n");
    assert_eq!(Bash::default().unset_env("A B"), "unset 'A B'\n");
    assert_eq!(
        Zsh::default().set_env("P", "abcXYZ019-_=/,.+"),
        "export P=abcXYZ019-_=/,.+\n"
    );
}

#[test]
fn elvish_statements() {
    let elvish = Elvish::default();
    assert_eq!(elvish.set_env("FOO", "1"), "set-env FOO 1\n");
    assert_eq!(elvish.set_env("FOO", "a b"), "set-env FOO 'a b'\n");
    assert_eq!(elvish.set_env("FOO", "a\\nb"), "set-env FOO 'a\nb'\n");
    assert_eq!(elvish.unset_env("FOO"), "unset-env FOO\n");
    assert_eq!(elvish.unset_env("F O"), "unset-env 'F O'\n");
    assert_eq!(elvish.prepend_env("PATH", "/a b"), "set-env PATH /a b\n");
}

#[test]
fn elvish_deactivation() {
    let expected = concat_lines(&[
        "unset-env MISE_SHELL",
        "set edit:before-readline = [(each {|f|",
        "  if (not-eq $f $_rtx_hook) {",
        "    put $f",
        "  }",
        "} $edit:before-readline)]",
        "del rtx~",
    ]);
    assert_eq!(Elvish::default().deactivate(), expected);
}

#[test]
fn line_breaks_are_read_from_the_left() {
    assert_eq!(break_lines(""), "");
    assert_eq!(break_lines("plain"), "plain");
    assert_eq!(break_lines("a\\nb"), "a\nb");
    assert_eq!(break_lines("\\n\\n"), "\n\n");
    assert_eq!(break_lines("\\\\n"), "\\\n");
    assert_eq!(break_lines("end\\"), "end\\");
    assert_eq!(break_lines("\\m"), "\\m");
    assert_eq!(break_lines("a\\nb"), "a\\nb".replace("\\n", "\n"));
}
