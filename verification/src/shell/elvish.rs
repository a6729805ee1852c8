//! Elvish.

use crate::shell::{escape, escaped, Shell};
use crate::text::{from_chars, to_chars};
use vstd::prelude::*;

verus! {

pub const ACTIVATE_HEAD: &'static str =
    "set-env RTX_SHELL elvish\n\nedit:add-var rtx~ {|@args|\n  var command\n  if (> (count $args) 0) {\n    set command = $args[0]\n  }\n  if (or (eq $command \"deactivate\") (eq $command \"shell\")) {\n    eval (";

pub const ACTIVATE_FORWARD: &'static str = " $@args | slurp)\n  } else {\n    ";

pub const ACTIVATE_HOOK: &'static str = " $@args\n  }\n}\n\nfn rtx_hook {||\n  eval (";

pub const ACTIVATE_TAIL: &'static str =
    " -s elvish | slurp)\n}\nedit:add-var _rtx_hook $rtx_hook~\n\nset edit:before-readline = [ $@edit:before-readline $rtx_hook~ ]\nrtx_hook\n";

pub const DEACTIVATE: &'static str =
    "unset-env MISE_SHELL\nset edit:before-readline = [(each {|f|\n  if (not-eq $f $_rtx_hook) {\n    put $f\n  }\n} $edit:before-readline)]\ndel rtx~\n";

/// The script that hooks the manager, found at `exe`, into a session; `flags`
/// are handed to the hook on every prompt.
pub open spec fn activation(exe: Seq<char>, flags: Seq<char>) -> Seq<char> {
    ACTIVATE_HEAD@ + exe + ACTIVATE_FORWARD@ + exe + ACTIVATE_HOOK@ + exe + " hook-env"@ + flags
        + ACTIVATE_TAIL@
}

/// `s` with every backslash that is followed by the letter `n` replaced,
/// together with that letter, by a line break; read from the left, so that no
/// character is used twice.
pub open spec fn with_line_breaks(s: Seq<char>) -> Seq<char>
    decreases s.len(),
{
    if s.len() == 0 {
        s
    } else if s.len() >= 2 && s[0] == '\\' && s[1] == 'n' {
        seq!['\n'] + with_line_breaks(s.skip(2))
    } else {
        seq![s[0]] + with_line_breaks(s.skip(1))
    }
}

/// `set-env K V`: the name escaped, the value escaped and then given its line
/// breaks, on a line of its own.
pub open spec fn set_env_statement(k: Seq<char>, v: Seq<char>) -> Seq<char> {
    "set-env "@ + escaped(k) + " "@ + with_line_breaks(escaped(v)) + "\n"@
}

/// `set-env K V` with both parts as they are given.
pub open spec fn raw_set_env_statement(k: Seq<char>, v: Seq<char>) -> Seq<char> {
    "set-env "@ + k + " "@ + v + "\n"@
}

/// `unset-env K`, with the name escaped, on a line of its own.
pub open spec fn unset_env_statement(k: Seq<char>) -> Seq<char> {
    "unset-env "@ + escaped(k) + "\n"@
}

/// A text without a backslash has no line breaks to be given.
pub proof fn lemma_no_backslash(s: Seq<char>)
    requires
        forall|i: int| 0 <= i < s.len() ==> s[i] != '\\',
    ensures
        with_line_breaks(s) == s,
    decreases s.len(),
{
    if s.len() > 0 {
        let rest = s.skip(1);
        assert forall|i: int| 0 <= i < rest.len() implies rest[i] != '\\' by {
            assert(rest[i] == s[i + 1]);
        }
        lemma_no_backslash(rest);
        assert(seq![s[0]] + rest == s);
    }
}

/// Replaces each backslash followed by `n` with a line break.
pub fn break_lines(s: &str) -> (out: String)
    ensures
        out@ == with_line_breaks(s@),
{
    let chars = to_chars(s);
    let mut out: Vec<char> = Vec::new();
    let mut i: usize = 0;
    assert(chars@.skip(0) == chars@);
    assert(out@ + with_line_breaks(chars@) == with_line_breaks(chars@));
    while i < chars.len()
        invariant
            i <= chars.len(),
            chars@ == s@,
            out@ + with_line_breaks(chars@.skip(i as int)) == with_line_breaks(chars@),
        decreases chars.len() - i,
    {
        let ghost rest = chars@.skip(i as int);
        let ghost before = out@;
        if chars[i] == '\\' && i + 1 < chars.len() && chars[i + 1] == 'n' {
            out.push('\n');
            proof {
                assert(rest.skip(2) == chars@.skip(i + 2));
                assert(out@ + with_line_breaks(rest.skip(2)) == before + (seq!['\n']
                    + with_line_breaks(rest.skip(2))));
            }
            i += 2;
        } else {
            out.push(chars[i]);
            proof {
                assert(rest.skip(1) == chars@.skip(i + 1));
                assert(out@ + with_line_breaks(rest.skip(1)) == before + (seq![rest[0]]
                    + with_line_breaks(rest.skip(1))));
            }
            i += 1;
        }
    }
    assert(chars@.skip(i as int).len() == 0);
    assert(out@ + Seq::<char>::empty() == out@);
    from_chars(&out)
}

#[derive(Debug, Clone, Copy)]
pub struct Elvish {}

impl Default for Elvish {
    fn default() -> (out: Elvish) {
        Elvish {  }
    }
}

impl Elvish {
    /// Writes the script that hooks the manager into a session.
    pub fn activate(&self, exe: &str, flags: String) -> (out: String)
        ensures
            out@ == activation(exe@, flags@),
    {
        let mut out = String::new();
        out.append(ACTIVATE_HEAD);
        out.append(exe);
        out.append(ACTIVATE_FORWARD);
        out.append(exe);
        out.append(ACTIVATE_HOOK);
        out.append(exe);
        out.append(" hook-env");
        out.append(flags.as_str());
        out.append(ACTIVATE_TAIL);
        assert(out@ =~= activation(exe@, flags@));
        out
    }

    /// Writes the statement that sets `k` to `v`, both taken as they are.
    pub fn prepend_env(&self, k: &str, v: &str) -> (out: String)
        ensures
            out@ == raw_set_env_statement(k@, v@),
    {
        let mut out = "set-env ".to_owned();
        out.append(k);
        out.append(" ");
        out.append(v);
        out.append("\n");
        out
    }
}

impl Shell for Elvish {
    open spec fn set_statement(&self, k: Seq<char>, v: Seq<char>) -> Seq<char> {
        set_env_statement(k, v)
    }

    open spec fn unset_statement(&self, k: Seq<char>) -> Seq<char> {
        unset_env_statement(k)
    }

    open spec fn deactivation(&self) -> Seq<char> {
        DEACTIVATE@
    }

    fn set_env(&self, k: &str, v: &str) -> (out: String) {
        let k = escape(k);
        let v = escape(v);
        let v = break_lines(v.as_str());
        let mut out = "set-env ".to_owned();
        out.append(k.as_str());
        out.append(" ");
        out.append(v.as_str());
        out.append("\n");
        out
    }

    fn unset_env(&self, k: &str) -> (out: String) {
        let k = escape(k);
        let mut out = "unset-env ".to_owned();
        out.append(k.as_str());
        out.append("\n");
        out
    }

    fn deactivate(&self) -> (out: String) {
        DEACTIVATE.to_owned()
    }
}

} // verus!
