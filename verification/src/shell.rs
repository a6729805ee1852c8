//! Shell dialects: the statements that change a shell's environment, and the
//! scripts that hook the manager into a shell session.

pub mod bash;
pub mod elvish;
pub mod zsh;

use vstd::prelude::*;

verus! {

/// Characters that a shell reads literally wherever they stand.
pub open spec fn is_plain(c: char) -> bool {
    ||| 'a' <= c <= 'z'
    ||| 'A' <= c <= 'Z'
    ||| '0' <= c <= '9'
    ||| c == '-'
    ||| c == '_'
    ||| c == '='
    ||| c == '/'
    ||| c == ','
    ||| c == '.'
    ||| c == '+'
}

/// Every character of `s` is plain.
pub open spec fn all_plain(s: Seq<char>) -> bool {
    forall|i: int| 0 <= i < s.len() ==> is_plain(#[trigger] s[i])
}

/// The inside of a single-quoted word that stands for `s`: a quote or an
/// exclamation mark closes the quotation, stands escaped by a backslash, and
/// opens it again; any other character stands for itself.
pub open spec fn quoted_body(s: Seq<char>) -> Seq<char>
    decreases s.len(),
{
    if s.len() == 0 {
        Seq::empty()
    } else {
        let c = s.last();
        let front = quoted_body(s.drop_last());
        if c == '\'' || c == '!' {
            front + seq!['\'', '\\', c, '\'']
        } else {
            front.push(c)
        }
    }
}

/// The shell word that stands for `s`: `s` itself where it is not empty and
/// all its characters are plain, else `s` in single quotes.
pub open spec fn escaped(s: Seq<char>) -> Seq<char> {
    if s.len() > 0 && all_plain(s) {
        s
    } else {
        seq!['\''] + quoted_body(s) + seq!['\'']
    }
}

/// Escapes a string so that a shell reads it as one word.
///
/// Trusted: wraps `shell_escape::unix::escape`.  That function returns its
/// argument unchanged when it is not empty and made only of ASCII letters,
/// digits and `-_=/,.+`; otherwise it wraps the argument in single quotes,
/// writing each `'` and `!` as a closing quote, a backslash, the character,
/// and an opening quote.
#[verifier::external_body]
pub(crate) fn escape(s: &str) -> (out: String)
    ensures
        out@ == escaped(s@),
{
    shell_escape::unix::escape(s.into()).into_owned()
}

/// A shell dialect: how to write the statements that set and unset an
/// environment variable, and how to undo the session hook.
pub trait Shell {
    /// The statement that sets variable `k` to `v`.
    spec fn set_statement(&self, k: Seq<char>, v: Seq<char>) -> Seq<char>;

    /// The statement that unsets variable `k`.
    spec fn unset_statement(&self, k: Seq<char>) -> Seq<char>;

    /// The script that removes the session hook.
    spec fn deactivation(&self) -> Seq<char>;

    fn set_env(&self, k: &str, v: &str) -> (out: String)
        ensures
            out@ == self.set_statement(k@, v@),
    ;

    fn unset_env(&self, k: &str) -> (out: String)
        ensures
            out@ == self.unset_statement(k@),
    ;

    fn deactivate(&self) -> (out: String)
        ensures
            out@ == self.deactivation(),
    ;
}

} // verus!
