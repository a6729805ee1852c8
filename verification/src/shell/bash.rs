//! Statements in the Bourne-again shell's dialect.

use crate::shell::{escape, escaped};
use vstd::prelude::*;

verus! {

/// `export K=V`, with both parts escaped, on a line of its own.
pub open spec fn export_statement(k: Seq<char>, v: Seq<char>) -> Seq<char> {
    "export "@ + escaped(k) + "="@ + escaped(v) + "\n"@
}

/// `unset K`, with the name escaped, on a line of its own.
pub open spec fn unset_statement(k: Seq<char>) -> Seq<char> {
    "unset "@ + escaped(k) + "\n"@
}

#[derive(Debug, Clone, Copy)]
pub struct Bash {}

impl Default for Bash {
    fn default() -> (out: Bash) {
        Bash {  }
    }
}

impl Bash {
    pub fn set_env(&self, k: &str, v: &str) -> (out: String)
        ensures
            out@ == export_statement(k@, v@),
    {
        let k = escape(k);
        let v = escape(v);
        let mut out = "export ".to_owned();
        out.append(k.as_str());
        out.append("=");
        out.append(v.as_str());
        out.append("\n");
        out
    }

    pub fn unset_env(&self, k: &str) -> (out: String)
        ensures
            out@ == unset_statement(k@),
    {
        let k = escape(k);
        let mut out = "unset ".to_owned();
        out.append(k.as_str());
        out.append("\n");
        out
    }
}

} // verus!
