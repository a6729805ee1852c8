//! Shell completions: which generator writes the script, and what is printed.

use crate::text::{trim, trimmed};
use vstd::prelude::*;

verus! {

/// A shell for which completions can be written.
#[derive(Debug, Clone, Copy, PartialEq, Eq, Structural)]
pub enum Shell {
    Bash,
    Elvish,
    Fish,
    Zsh,
}

impl Shell {
    /// The lower-case name of the shell.
    pub open spec fn name(self) -> Seq<char> {
        match self {
            Shell::Bash => "bash"@,
            Shell::Elvish => "elvish"@,
            Shell::Fish => "fish"@,
            Shell::Zsh => "zsh"@,
        }
    }

    /// Renders the shell as its lower-case name.
    pub fn to_string(&self) -> (out: String)
        ensures
            out@ == self.name(),
    {
        match self {
            Shell::Bash => "bash".to_owned(),
            Shell::Elvish => "elvish".to_owned(),
            Shell::Fish => "fish".to_owned(),
            Shell::Zsh => "zsh".to_owned(),
        }
    }

    /// All shells, in the order they are offered.
    pub fn value_variants() -> (out: Vec<Shell>)
        ensures
            out@ == seq![Shell::Bash, Shell::Elvish, Shell::Fish, Shell::Zsh],
    {
        vec![Shell::Bash, Shell::Elvish, Shell::Fish, Shell::Zsh]
    }
}

/// The completion scripts that ship with the program, one per shell.
#[derive(Debug, Clone)]
pub struct Prerendered {
    pub bash: String,
    pub elvish: String,
    pub fish: String,
    pub zsh: String,
}

impl Prerendered {
    /// The script for `shell`.
    pub open spec fn script(&self, shell: Shell) -> Seq<char> {
        match shell {
            Shell::Bash => self.bash@,
            Shell::Elvish => self.elvish@,
            Shell::Fish => self.fish@,
            Shell::Zsh => self.zsh@,
        }
    }
}

/// A request for the completion script of one shell.
#[derive(Debug, Clone, Copy)]
pub struct Completion {
    /// The shell, given by position.
    pub shell: Option<Shell>,
    /// The shell, given by flag; it counts where none is given by position.
    pub shell_type: Option<Shell>,
    /// Always write the script with the `usage` tool.
    pub usage: bool,
}

impl Completion {
    /// A shell was named, one way or the other.
    pub open spec fn names_shell(&self) -> bool {
        self.shell is Some || self.shell_type is Some
    }

    /// The shell asked for.
    pub open spec fn target(&self) -> Shell {
        match self.shell {
            Some(shell) => shell,
            None => self.shell_type->0,
        }
    }

    /// Whether the `usage` tool writes the script: always for bash and fish,
    /// for the others only on request.
    pub open spec fn wants_usage(&self) -> bool {
        self.usage || self.target() == Shell::Bash || self.target() == Shell::Fish
    }

    /// What is printed, given what the generator returned.  The `usage` tool
    /// failing is made up for by the shipped script; the built-in generator
    /// failing is an error.  Either way the script is printed trimmed.
    pub open spec fn printed(
        &self,
        generated: Result<String, String>,
        scripts: &Prerendered,
    ) -> Result<Seq<char>, Seq<char>> {
        match generated {
            Ok(script) => Ok(trimmed(script@)),
            Err(error) => if self.wants_usage() {
                Ok(trimmed(scripts.script(self.target())))
            } else {
                Err(error@)
            },
        }
    }

    /// The shell asked for.
    pub fn chosen_shell(&self) -> (out: Shell)
        requires
            self.names_shell(),
        ensures
            out == self.target(),
    {
        match self.shell {
            Some(shell) => shell,
            None => self.shell_type.unwrap(),
        }
    }

    /// Whether the script is to be written by the `usage` tool rather than by
    /// the built-in generator.
    pub fn uses_usage(&self) -> (out: bool)
        requires
            self.names_shell(),
        ensures
            out == self.wants_usage(),
    {
        match self.chosen_shell() {
            Shell::Bash => true,
            Shell::Fish => true,
            _ => self.usage,
        }
    }

    /// The arguments with which the `usage` tool writes the script for
    /// `shell`.
    pub fn usage_arguments(&self, shell: Shell) -> (out: Vec<String>)
        ensures
            out.len() == 6,
            out[0]@ == "generate"@,
            out[1]@ == "completion"@,
            out[2]@ == shell.name(),
            out[3]@ == "mise"@,
            out[4]@ == "--usage-cmd"@,
            out[5]@ == "mise usage"@,
    {
        let mut out: Vec<String> = Vec::new();
        out.push("generate".to_owned());
        out.push("completion".to_owned());
        out.push(shell.to_string());
        out.push("mise".to_owned());
        out.push("--usage-cmd".to_owned());
        out.push("mise usage".to_owned());
        out
    }

    /// The shipped script for `shell`.
    pub fn prerendered(&self, shell: Shell, scripts: &Prerendered) -> (out: String)
        ensures
            out@ == scripts.script(shell),
    {
        match shell {
            Shell::Bash => scripts.bash.clone(),
            Shell::Elvish => scripts.elvish.clone(),
            Shell::Fish => scripts.fish.clone(),
            Shell::Zsh => scripts.zsh.clone(),
        }
    }

    /// Decides what to print.  `generated` is what the generator named by
    /// `uses_usage` returned: the script, or why there is none.
    pub fn run(self, generated: Result<String, String>, scripts: &Prerendered) -> (out: Result<
        String,
        String,
    >)
        requires
            self.names_shell(),
        ensures
            match (out, self.printed(generated, scripts)) {
                (Ok(text), Ok(expected)) => text@ == expected,
                (Err(error), Err(expected)) => error@ == expected,
                _ => false,
            },
    {
        let shell = self.chosen_shell();
        let script = match generated {
            Ok(script) => script,
            Err(error) => {
                if self.uses_usage() {
                    self.prerendered(shell, scripts)
                } else {
                    return Err(error);
                }
            },
        };
        Ok(trim(script.as_str()))
    }
}

} // verus!
