//! Running a command with a toolset's environment: what to run, the
//! environment to run it in, and how its exit status is read.

use crate::ordered_map::{entries, insert, upsert, Pair};
use crate::settings::MissingRuntimeBehavior;
use crate::text::{decimal_string, decimal_text, push_char, views};
use indexmap::IndexMap;
use vstd::prelude::*;

verus! {

/// A request to run a command with a set of runtimes.
#[derive(Debug, Clone)]
pub struct Exec {
    /// The runtimes to start, as written: `plugin@version`.
    pub runtime: Vec<String>,
    /// The command and its arguments.
    pub command: Option<Vec<String>>,
    /// The command as one string for the shell.
    pub c: Option<String>,
}

/// Either a command with at least its program, or a command string.
pub open spec fn runnable(command: Option<Vec<String>>, c: Option<String>) -> bool {
    match command {
        Some(words) => words.len() > 0,
        None => c is Some,
    }
}

/// The program to run: the first word of the command, or the shell.
pub open spec fn program_of(shell: Seq<char>, command: Option<Vec<String>>) -> Seq<char> {
    match command {
        Some(words) => words[0]@,
        None => shell,
    }
}

/// Its arguments: the other words of the command, or `-c` and the string.
pub open spec fn arguments_of(command: Option<Vec<String>>, c: Option<String>) -> Seq<Seq<char>> {
    match command {
        Some(words) => views(words@).skip(1),
        None => seq!["-c"@, c->0@],
    }
}

/// Splits a request into the program and its arguments.  A command given
/// word by word is run as it is; a command string is handed to `shell`.
pub fn parse_command(shell: &str, command: Option<Vec<String>>, c: Option<String>) -> (out: (
    String,
    Vec<String>,
))
    requires
        runnable(command, c),
    ensures
        out.0@ == program_of(shell@, command),
        views(out.1@) == arguments_of(command, c),
{
    match command {
        Some(words) => {
            let program = words[0].clone();
            let mut args: Vec<String> = Vec::new();
            let mut i: usize = 1;
            while i < words.len()
                invariant
                    1 <= i <= words.len(),
                    args.len() == i - 1,
                    forall|j: int| 0 <= j < args.len() ==> args[j]@ == words[j + 1]@,
                decreases words.len() - i,
            {
                args.push(words[i].clone());
                i += 1;
            }
            assert(views(args@) =~= views(words@).skip(1));
            (program, args)
        },
        None => {
            let mut args: Vec<String> = Vec::new();
            args.push("-c".to_owned());
            args.push(c.unwrap());
            assert(views(args@) =~= arguments_of(command, c));
            (shell.to_owned(), args)
        },
    }
}

/// The environment of the command: the toolset's variables, then `PATH`, then,
/// unless missing runtimes are ignored, the instruction to only warn of them,
/// so that nothing is installed from inside the command.
pub open spec fn command_env(
    vars: Seq<Pair>,
    path: Seq<char>,
    behavior: MissingRuntimeBehavior,
) -> Seq<Pair> {
    let with_path = upsert(vars, "PATH"@, path);
    if behavior != MissingRuntimeBehavior::Ignore {
        upsert(with_path, "RTX_MISSING_RUNTIME_BEHAVIOR"@, "warn"@)
    } else {
        with_path
    }
}

/// What to run and in which environment.
#[derive(Debug)]
pub struct ExecPlan {
    pub program: String,
    pub args: Vec<String>,
    pub env: IndexMap<String, String>,
}

impl Exec {
    /// Plans the run.  `vars` and `path` are the toolset's variables and its
    /// `PATH`; `shell` runs a command given as one string.
    pub fn run(
        self,
        shell: &str,
        vars: IndexMap<String, String>,
        path: String,
        behavior: MissingRuntimeBehavior,
    ) -> (plan: ExecPlan)
        requires
            runnable(self.command, self.c),
        ensures
            plan.program@ == program_of(shell@, self.command),
            views(plan.args@) == arguments_of(self.command, self.c),
            entries(plan.env) == command_env(entries(vars), path@, behavior),
    {
        let (program, args) = parse_command(shell, self.command, self.c);
        let mut env = vars;
        insert(&mut env, "PATH".to_owned(), path);
        match behavior {
            MissingRuntimeBehavior::Ignore => {},
            _ => {
                insert(&mut env, "RTX_MISSING_RUNTIME_BEHAVIOR".to_owned(), "warn".to_owned());
            },
        }
        ExecPlan { program, args, env }
    }
}

/// Why a command counts as failed.
#[derive(Debug, Clone, Copy, PartialEq, Eq, Structural)]
pub enum ExecError {
    /// It ended with a status other than zero.
    Failed { code: i32 },
}

/// The numeral of an integer, with a minus sign where it is negative.
pub open spec fn signed_text(n: int) -> Seq<char> {
    if n < 0 {
        seq!['-'] + decimal_text((-n) as nat)
    } else {
        decimal_text(n as nat)
    }
}

impl ExecError {
    pub open spec fn text(self) -> Seq<char> {
        match self {
            ExecError::Failed { code } => "command failed with exit code "@ + signed_text(
                code as int,
            ),
        }
    }

    /// The message shown to the user.
    pub fn message(&self) -> (out: String)
        ensures
            out@ == self.text(),
    {
        match self {
            ExecError::Failed { code } => {
                let mut out = "command failed with exit code ".to_owned();
                let code: i32 = *code;
                if code < 0 {
                    push_char(&mut out, '-');
                    let magnitude: u64 = (-(code as i64)) as u64;
                    out.append(decimal_string(magnitude).as_str());
                    assert(out@ =~= self.text());
                } else {
                    out.append(decimal_string(code as u64).as_str());
                }
                out
            },
        }
    }
}

/// The exit code that counts: the one reported, or 1 where the command ended
/// without one.
pub open spec fn effective_code(code: Option<i32>) -> i32 {
    match code {
        Some(code) => code,
        None => 1,
    }
}

/// Reads a command's exit status: zero is success, anything else a failure
/// that carries the code.
pub fn exit_result(code: Option<i32>) -> (out: Result<(), ExecError>)
    ensures
        out == if effective_code(code) == 0 {
            Ok::<(), ExecError>(())
        } else {
            Err::<(), ExecError>(ExecError::Failed { code: effective_code(code) })
        },
{
    let code: i32 = match code {
        Some(code) => code,
        None => 1,
    };
    if code == 0 {
        Ok(())
    } else {
        Err(ExecError::Failed { code })
    }
}

} // verus!
