//! The Z shell.

use crate::shell::bash::{export_statement, unset_statement, Bash};
use crate::shell::Shell;
use vstd::prelude::*;

verus! {

pub const ACTIVATE_HEAD: &'static str =
    "export RTX_SHELL=zsh\n\nrtx() {\n  local command\n  command=\"${1:-}\"\n  if [ \"$#\" = 0 ]; then\n    command ";

pub const ACTIVATE_EVAL: &'static str =
    "\n    return\n  fi\n  shift\n\n  case \"$command\" in\n  deactivate|shell)\n    eval \"$(";

pub const ACTIVATE_FORWARD: &'static str = " \"$command\" \"$@\")\"\n    ;;\n  *)\n    command ";

pub const ACTIVATE_HOOK: &'static str =
    " \"$command\" \"$@\"\n    ;;\n  esac\n}\n\n_rtx_hook() {\n  trap -- '' SIGINT;\n  eval \"$(\"";

pub const ACTIVATE_TAIL: &'static str =
    " -s zsh)\";\n  trap - SIGINT;\n}\ntypeset -ag precmd_functions;\nif [[ -z \"${precmd_functions[(r)_rtx_hook]+1}\" ]]; then\n  precmd_functions=( _rtx_hook ${precmd_functions[@]} )\nfi\ntypeset -ag chpwd_functions;\nif [[ -z \"${chpwd_functions[(r)_rtx_hook]+1}\" ]]; then\n  chpwd_functions=( _rtx_hook ${chpwd_functions[@]} )\nfi\n\n_rtx_hook\n";

pub const DEACTIVATE: &'static str =
    "precmd_functions=( ${precmd_functions[(r)_rtx_hook]} )\nchpwd_functions=( ${chpwd_functions[(r)_rtx_hook]} )\nunset -f _rtx_hook\nunset -f rtx\nunset RTX_SHELL\n";

/// The line that puts the executable's directory in front of `PATH`, or
/// nothing where the directory is on `PATH` already.
pub open spec fn path_line(dir: Seq<char>, dir_in_path: bool) -> Seq<char> {
    if dir_in_path {
        Seq::empty()
    } else {
        "export PATH=\""@ + dir + ":$PATH\"\n"@
    }
}

/// The flags handed to the hook on every prompt.
pub open spec fn hook_flags(status: bool) -> Seq<char> {
    if status {
        " --status"@
    } else {
        Seq::empty()
    }
}

/// The script that hooks the manager, found at `exe`, into a session.
pub open spec fn activation(exe: Seq<char>, dir: Seq<char>, dir_in_path: bool, status: bool) -> Seq<
    char,
> {
    path_line(dir, dir_in_path) + ACTIVATE_HEAD@ + exe + ACTIVATE_EVAL@ + exe + ACTIVATE_FORWARD@
        + exe + ACTIVATE_HOOK@ + exe + "\" hook-env"@ + hook_flags(status) + ACTIVATE_TAIL@
}

#[derive(Debug, Clone, Copy)]
pub struct Zsh {}

impl Default for Zsh {
    fn default() -> (out: Zsh) {
        Zsh {  }
    }
}

impl Zsh {
    /// Writes the script that hooks the manager into a session.  `exe` is
    /// the manager's executable and `dir` the directory that holds it;
    /// `dir_in_path` says whether `PATH` lists that directory already.
    pub fn activate(&self, exe: &str, dir: &str, dir_in_path: bool, status: bool) -> (out: String)
        ensures
            out@ == activation(exe@, dir@, dir_in_path, status),
    {
        let mut out = String::new();
        if !dir_in_path {
            out.append("export PATH=\"");
            out.append(dir);
            out.append(":$PATH\"\n");
        }
        assert(out@ =~= path_line(dir@, dir_in_path));
        out.append(ACTIVATE_HEAD);
        out.append(exe);
        out.append(ACTIVATE_EVAL);
        out.append(exe);
        out.append(ACTIVATE_FORWARD);
        out.append(exe);
        out.append(ACTIVATE_HOOK);
        out.append(exe);
        out.append("\" hook-env");
        if status {
            out.append(" --status");
        }
        out.append(ACTIVATE_TAIL);
        assert(out@ =~= activation(exe@, dir@, dir_in_path, status));
        out
    }
}

impl Shell for Zsh {
    open spec fn set_statement(&self, k: Seq<char>, v: Seq<char>) -> Seq<char> {
        export_statement(k, v)
    }

    open spec fn unset_statement(&self, k: Seq<char>) -> Seq<char> {
        unset_statement(k)
    }

    open spec fn deactivation(&self) -> Seq<char> {
        DEACTIVATE@
    }

    fn set_env(&self, k: &str, v: &str) -> (out: String) {
        Bash::default().set_env(k, v)
    }

    fn unset_env(&self, k: &str) -> (out: String) {
        Bash::default().unset_env(k)
    }

    fn deactivate(&self) -> (out: String) {
        DEACTIVATE.to_owned()
    }
}

} // verus!
