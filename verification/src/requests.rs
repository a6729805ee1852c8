//! Reading version requests: from the command line, where a request is
//! written `plugin@version`, and from version files, which hold one
//! `plugin version` per line.

use crate::text::{from_chars, split_on, split_text, to_chars, trim, trimmed, views};
use crate::toolset::{
    spec_views, PrecedenceSource, RequirementView, SpecView, VersionRequirement, VersionSpec,
};
use vstd::prelude::*;

verus! {

/// Why a text is no request.
#[derive(Debug, Clone, Copy, PartialEq, Eq, Structural)]
pub enum ParseFailure {
    /// No plugin is named.
    EmptyPlugin,
    /// A version is announced and none follows.
    EmptyVersion,
    /// No version is given where one is needed.
    MissingVersion,
}

/// A text that is no request, and where it was found.
#[derive(Debug, Clone, PartialEq, Eq)]
pub struct ParseError {
    /// The kind of source it came from.
    pub source: PrecedenceSource,
    /// Which of the files given it stood in, counted from 0; 0 for the
    /// command line.
    pub file: usize,
    /// Its line in the file, or its place among the arguments, counted
    /// from 0.
    pub line: usize,
    /// The text itself.
    pub text: String,
    pub failure: ParseFailure,
}

/// The position of the first `c` in `s`, or the length of `s` where there is
/// none.
pub open spec fn first_index(s: Seq<char>, c: char) -> int
    decreases s.len(),
{
    if s.len() == 0 || s[0] == c {
        0
    } else {
        1 + first_index(s.skip(1), c)
    }
}

/// `s` begins with `prefix`.
pub open spec fn has_prefix(s: Seq<char>, prefix: Seq<char>) -> bool {
    s.len() >= prefix.len() && s.take(prefix.len() as int) == prefix
}

/// The requirement that a text stands for, if it is not empty: `latest` and
/// `system` by name, a prefix after `prefix:`, an exact version where the
/// text begins with a digit, and an alias otherwise.
pub open spec fn requirement_of(text: Seq<char>) -> Option<RequirementView> {
    if text.len() == 0 {
        None
    } else if text == "latest"@ {
        Some(RequirementView::Latest)
    } else if text == "system"@ {
        Some(RequirementView::System)
    } else if has_prefix(text, "prefix:"@) {
        if text.len() == "prefix:"@.len() {
            None
        } else {
            Some(RequirementView::Prefix(text.skip("prefix:"@.len() as int)))
        }
    } else if '0' <= text[0] <= '9' {
        Some(RequirementView::Exact(text))
    } else {
        Some(RequirementView::Alias(text))
    }
}

/// The request that a text stands for.  The plugin is what stands before
/// the first separator, the version what stands behind it, both without the
/// white space around them.  Without a separator the latest version is
/// meant, unless a version is required.
pub open spec fn parsed(
    text: Seq<char>,
    sep: char,
    source: PrecedenceSource,
    version_required: bool,
) -> Result<SpecView, ParseFailure> {
    let at = first_index(text, sep);
    let plugin = trimmed(text.take(at));
    if plugin.len() == 0 {
        Err(ParseFailure::EmptyPlugin)
    } else if at >= text.len() {
        if version_required {
            Err(ParseFailure::MissingVersion)
        } else {
            Ok(SpecView { plugin, requirement: RequirementView::Latest, source })
        }
    } else {
        match requirement_of(trimmed(text.skip(at + 1))) {
            Some(requirement) => Ok(SpecView { plugin, requirement, source }),
            None => Err(ParseFailure::EmptyVersion),
        }
    }
}

/// The first `c` is found where no `c` stands before.
pub proof fn lemma_first_index(s: Seq<char>, c: char, at: int)
    requires
        0 <= at <= s.len(),
        forall|j: int| 0 <= j < at ==> s[j] != c,
        at == s.len() || s[at] == c,
    ensures
        first_index(s, c) == at,
    decreases s.len(),
{
    if s.len() == 0 || s[0] == c {
    } else {
        let rest = s.skip(1);
        assert forall|j: int| 0 <= j < at - 1 implies rest[j] != c by {
            assert(rest[j] == s[j + 1]);
        }
        lemma_first_index(rest, c, at - 1);
    }
}

/// Finds the first `c`.
fn find_char(chars: &Vec<char>, c: char) -> (at: usize)
    ensures
        at == first_index(chars@, c),
        at <= chars.len(),
{
    let mut i: usize = 0;
    while i < chars.len() && chars[i] != c
        invariant
            i <= chars.len(),
            forall|j: int| 0 <= j < i ==> chars@[j] != c,
        decreases chars.len() - i,
    {
        i += 1;
    }
    proof {
        lemma_first_index(chars@, c, i as int);
    }
    i
}

/// Copies the characters from `from` up to `to`.
fn slice(chars: &Vec<char>, from: usize, to: usize) -> (out: Vec<char>)
    requires
        from <= to <= chars.len(),
    ensures
        out@ == chars@.subrange(from as int, to as int),
{
    let mut out: Vec<char> = Vec::new();
    let mut i: usize = from;
    while i < to
        invariant
            from <= i <= to <= chars.len(),
            out@ == chars@.subrange(from as int, i as int),
        decreases to - i,
    {
        out.push(chars[i]);
        assert(chars@.subrange(from as int, i + 1) == chars@.subrange(from as int, i as int).push(
            chars@[i as int],
        ));
        i += 1;
    }
    out
}

/// Tells whether the characters begin with `prefix`.
fn begins_with(chars: &Vec<char>, prefix: &str) -> (yes: bool)
    ensures
        yes == has_prefix(chars@, prefix@),
{
    let wanted = to_chars(prefix);
    if chars.len() < wanted.len() {
        return false;
    }
    let mut i: usize = 0;
    while i < wanted.len()
        invariant
            i <= wanted.len() <= chars.len(),
            wanted@ == prefix@,
            forall|j: int| 0 <= j < i ==> chars@[j] == wanted@[j],
        decreases wanted.len() - i,
    {
        if chars[i] != wanted[i] {
            assert(chars@.take(wanted.len() as int)[i as int] != wanted@[i as int]);
            return false;
        }
        i += 1;
    }
    assert(chars@.take(wanted.len() as int) =~= wanted@);
    true
}

/// Tells whether a character is a decimal digit.
fn is_digit(c: char) -> (yes: bool)
    ensures
        yes == ('0' <= c <= '9'),
{
    let n: u32 = c as u32;
    48 <= n && n <= 57
}

/// Reads a requirement.
pub fn parse_requirement(text: &str) -> (out: Option<VersionRequirement>)
    ensures
        match out {
            Some(requirement) => requirement_of(text@) == Some(requirement@),
            None => requirement_of(text@) is None,
        },
{
    let chars = to_chars(text);
    if chars.len() == 0 {
        return None;
    }
    if begins_with(&chars, "latest") && chars.len() == 6 {
        proof {
            reveal_strlit("latest");
            assert(chars@.take(6) == chars@);
        }
        return Some(VersionRequirement::Latest);
    }
    if begins_with(&chars, "system") && chars.len() == 6 {
        proof {
            reveal_strlit("system");
            assert(chars@.take(6) == chars@);
        }
        return Some(VersionRequirement::System);
    }
    proof {
        reveal_strlit("latest");
        reveal_strlit("system");
        reveal_strlit("prefix:");
        if chars@ == "latest"@ {
            assert(chars@.take(6) == chars@);
        }
        if chars@ == "system"@ {
            assert(chars@.take(6) == chars@);
        }
    }
    if begins_with(&chars, "prefix:") {
        if chars.len() == 7 {
            return None;
        }
        let rest = slice(&chars, 7, chars.len());
        assert(chars@.subrange(7, chars.len() as int) == chars@.skip(7));
        return Some(VersionRequirement::Prefix(from_chars(&rest)));
    }
    if is_digit(chars[0]) {
        Some(VersionRequirement::Exact(from_chars(&chars)))
    } else {
        Some(VersionRequirement::Alias(from_chars(&chars)))
    }
}

/// Reads one request.  `sep` stands between plugin and version; with
/// `version_required`, a request without a version is refused.
pub fn parse_request(text: &str, sep: char, source: PrecedenceSource, version_required: bool)
    -> (out: Result<VersionSpec, ParseFailure>)
    ensures
        match out {
            Ok(spec) => parsed(text@, sep, source, version_required) == Ok::<
                SpecView,
                ParseFailure,
            >(spec@),
            Err(failure) => parsed(text@, sep, source, version_required) == Err::<
                SpecView,
                ParseFailure,
            >(failure),
        },
{
    let chars = to_chars(text);
    let at = find_char(&chars, sep);
    let head = slice(&chars, 0, at);
    assert(chars@.subrange(0, at as int) == chars@.take(at as int));
    let plugin = trim(from_chars(&head).as_str());
    if plugin.as_str().unicode_len() == 0 {
        return Err(ParseFailure::EmptyPlugin);
    }
    if at >= chars.len() {
        if version_required {
            return Err(ParseFailure::MissingVersion);
        }
        return Ok(VersionSpec { plugin, requirement: VersionRequirement::Latest, source });
    }
    let tail = slice(&chars, at + 1, chars.len());
    assert(chars@.subrange(at + 1, chars.len() as int) == chars@.skip(at + 1));
    let version = trim(from_chars(&tail).as_str());
    match parse_requirement(version.as_str()) {
        Some(requirement) => Ok(VersionSpec { plugin, requirement, source }),
        None => Err(ParseFailure::EmptyVersion),
    }
}

impl VersionSpec {
    /// Reads a request as it is written on the command line: `plugin`, or
    /// `plugin@version`.
    pub fn parse(text: &str, source: PrecedenceSource) -> (out: Result<VersionSpec, ParseFailure>)
        ensures
            match out {
                Ok(spec) => parsed(text@, '@', source, false) == Ok::<SpecView, ParseFailure>(
                    spec@,
                ),
                Err(failure) => parsed(text@, '@', source, false) == Err::<
                    SpecView,
                    ParseFailure,
                >(failure),
            },
    {
        parse_request(text, '@', source, false)
    }
}

/// What one text of a list holds: a request, nothing, or an error.  On the
/// command line every text is a request, written with `@`.  In a version
/// file a line of white space holds nothing, and any other line is a request
/// written with a blank between plugin and version, the version required.
pub open spec fn item(text: Seq<char>, source: PrecedenceSource, file_form: bool) -> Result<
    Option<SpecView>,
    ParseFailure,
> {
    if file_form {
        if trimmed(text).len() == 0 {
            Ok(None)
        } else {
            match parsed(trimmed(text), ' ', source, true) {
                Ok(spec) => Ok(Some(spec)),
                Err(failure) => Err(failure),
            }
        }
    } else {
        match parsed(text, '@', source, false) {
            Ok(spec) => Ok(Some(spec)),
            Err(failure) => Err(failure),
        }
    }
}

/// Where a list of texts first goes wrong, and how.
pub struct Fault {
    pub line: int,
    pub failure: ParseFailure,
}

/// The requests that the first `n` texts hold, in order; or the first text
/// among them that is no request.
pub open spec fn parsed_list(
    texts: Seq<Seq<char>>,
    source: PrecedenceSource,
    file_form: bool,
    n: int,
) -> Result<Seq<SpecView>, Fault>
    decreases n,
{
    if n <= 0 || n > texts.len() {
        Ok(Seq::empty())
    } else {
        match parsed_list(texts, source, file_form, n - 1) {
            Err(fault) => Err(fault),
            Ok(specs) => match item(texts[n - 1], source, file_form) {
                Ok(Some(spec)) => Ok(specs.push(spec)),
                Ok(None) => Ok(specs),
                Err(failure) => Err(Fault { line: n - 1, failure }),
            },
        }
    }
}

/// The outcome of reading a list of texts says what the texts hold.
pub open spec fn reads(
    out: Result<Vec<VersionSpec>, ParseError>,
    texts: Seq<Seq<char>>,
    source: PrecedenceSource,
    file_form: bool,
    file: usize,
) -> bool {
    match (out, parsed_list(texts, source, file_form, texts.len() as int)) {
        (Ok(specs), Ok(expected)) => spec_views(specs@) == expected,
        (Err(error), Err(fault)) => {
            &&& error.source == source
            &&& error.file == file
            &&& error.line == fault.line
            &&& 0 <= fault.line < texts.len()
            &&& error.text@ == texts[fault.line]
            &&& error.failure == fault.failure
        },
        _ => false,
    }
}

/// Reads a list of texts, stopping at the first that is no request.
fn parse_all(texts: &Vec<String>, source: PrecedenceSource, file_form: bool, file: usize) -> (out:
    Result<Vec<VersionSpec>, ParseError>)
    ensures
        reads(out, views(texts@), source, file_form, file),
{
    let ghost all = views(texts@);
    let mut specs: Vec<VersionSpec> = Vec::new();
    let mut i: usize = 0;
    assert(spec_views(specs@) =~= Seq::<SpecView>::empty());
    while i < texts.len()
        invariant
            i <= texts.len(),
            all == views(texts@),
            parsed_list(all, source, file_form, i as int) == Ok::<Seq<SpecView>, Fault>(
                spec_views(specs@),
            ),
        decreases texts.len() - i,
    {
        let ghost before = spec_views(specs@);
        let text = &texts[i];
        assert(all[i as int] == text@);
        let read = if file_form {
            let line = trim(text.as_str());
            if line.as_str().unicode_len() == 0 {
                Ok(None)
            } else {
                match parse_request(line.as_str(), ' ', source, true) {
                    Ok(spec) => Ok(Some(spec)),
                    Err(failure) => Err(failure),
                }
            }
        } else {
            match parse_request(text.as_str(), '@', source, false) {
                Ok(spec) => Ok(Some(spec)),
                Err(failure) => Err(failure),
            }
        };
        match read {
            Ok(Some(spec)) => {
                specs.push(spec);
                assert(spec_views(specs@) =~= before.push(spec@));
            },
            Ok(None) => {},
            Err(failure) => {
                proof {
                    lemma_fault_stays(all, source, file_form, i + 1, all.len() as int);
                }
                return Err(ParseError { source, file, line: i, text: text.clone(), failure });
            },
        }
        i += 1;
    }
    Ok(specs)
}

/// Once a list has gone wrong, more texts do not mend it.
pub proof fn lemma_fault_stays(
    texts: Seq<Seq<char>>,
    source: PrecedenceSource,
    file_form: bool,
    n: int,
    m: int,
)
    requires
        0 <= n <= m <= texts.len(),
        parsed_list(texts, source, file_form, n) is Err,
    ensures
        parsed_list(texts, source, file_form, m) == parsed_list(texts, source, file_form, n),
    decreases m - n,
{
    if n < m {
        lemma_fault_stays(texts, source, file_form, n, m - 1);
    }
}

/// Reads the requests given on the command line, in order.  The first
/// argument that is no request is the error.
pub fn parse_args(args: &Vec<String>) -> (out: Result<Vec<VersionSpec>, ParseError>)
    ensures
        reads(out, views(args@), PrecedenceSource::Cli, false, 0),
{
    parse_all(args, PrecedenceSource::Cli, false, 0)
}

/// Reads the requests of a version file, line by line.  `file` is the place
/// of the file among those being read.  The first line that is neither
/// blank nor a request is the error.
pub fn parse_version_file(content: &str, source: PrecedenceSource, file: usize) -> (out: Result<
    Vec<VersionSpec>,
    ParseError,
>)
    ensures
        reads(out, split_on(content@, '\n'), source, true, file),
{
    let lines = split_text(content, '\n');
    parse_all(&lines, source, true, file)
}

/// The requests of all kinds in the order in which they are resolved: the
/// weakest source first.
pub open spec fn in_order(
    global: Seq<SpecView>,
    legacy: Seq<SpecView>,
    project: Seq<SpecView>,
    cli: Seq<SpecView>,
) -> Seq<SpecView> {
    global + legacy + project + cli
}

/// Adds copies of the requests in `more` to `all`.
fn append_specs(all: &mut Vec<VersionSpec>, more: &Vec<VersionSpec>)
    ensures
        spec_views(final(all)@) == spec_views(old(all)@) + spec_views(more@),
{
    let ghost before = spec_views(all@);
    let mut i: usize = 0;
    assert(spec_views(all@) =~= before + spec_views(more@).take(0));
    while i < more.len()
        invariant
            i <= more.len(),
            spec_views(all@) == before + spec_views(more@).take(i as int),
        decreases more.len() - i,
    {
        let ghost so_far = spec_views(all@);
        let spec = &more[i];
        let requirement = match &spec.requirement {
            VersionRequirement::Exact(v) => VersionRequirement::Exact(v.clone()),
            VersionRequirement::Prefix(p) => VersionRequirement::Prefix(p.clone()),
            VersionRequirement::Latest => VersionRequirement::Latest,
            VersionRequirement::Alias(a) => VersionRequirement::Alias(a.clone()),
            VersionRequirement::System => VersionRequirement::System,
        };
        let copy = VersionSpec { plugin: spec.plugin.clone(), requirement, source: spec.source };
        assert(copy@ == spec@);
        all.push(copy);
        assert(spec_views(all@) =~= so_far.push(spec@));
        assert(spec_views(more@).take(i + 1) =~= spec_views(more@).take(i as int).push(spec@));
        i += 1;
    }
    assert(spec_views(more@).take(more.len() as int) =~= spec_views(more@));
}

/// Puts the requests of all kinds in the order in which they are resolved:
/// those of the global configuration first, then those of the version
/// files, then those of the project configuration, then those of the
/// command line.  Within a kind, files nearer the root come first.
pub fn collect(
    global: &Vec<VersionSpec>,
    legacy: &Vec<VersionSpec>,
    project: &Vec<VersionSpec>,
    cli: &Vec<VersionSpec>,
) -> (out: Vec<VersionSpec>)
    ensures
        spec_views(out@) == in_order(
            spec_views(global@),
            spec_views(legacy@),
            spec_views(project@),
            spec_views(cli@),
        ),
{
    let mut out: Vec<VersionSpec> = Vec::new();
    assert(spec_views(out@) =~= Seq::<SpecView>::empty());
    append_specs(&mut out, global);
    append_specs(&mut out, legacy);
    append_specs(&mut out, project);
    append_specs(&mut out, cli);
    assert(spec_views(out@) =~= in_order(
        spec_views(global@),
        spec_views(legacy@),
        spec_views(project@),
        spec_views(cli@),
    ));
    out
}

/// Where a list of files first goes wrong, and how.
pub struct FileFault {
    pub file: int,
    pub line: int,
    pub failure: ParseFailure,
}

/// The requests that the first `n` files hold, file after file; or the
/// first line among them that is neither blank nor a request.
pub open spec fn parsed_files(contents: Seq<Seq<char>>, source: PrecedenceSource, n: int)
    -> Result<Seq<SpecView>, FileFault>
    decreases n,
{
    if n <= 0 || n > contents.len() {
        Ok(Seq::empty())
    } else {
        match parsed_files(contents, source, n - 1) {
            Err(fault) => Err(fault),
            Ok(specs) => {
                let lines = split_on(contents[n - 1], '\n');
                match parsed_list(lines, source, true, lines.len() as int) {
                    Ok(more) => Ok(specs + more),
                    Err(fault) => Err(
                        FileFault { file: n - 1, line: fault.line, failure: fault.failure },
                    ),
                }
            },
        }
    }
}

/// Once a list of files has gone wrong, more files do not mend it.
pub proof fn lemma_file_fault_stays(
    contents: Seq<Seq<char>>,
    source: PrecedenceSource,
    n: int,
    m: int,
)
    requires
        0 <= n <= m <= contents.len(),
        parsed_files(contents, source, n) is Err,
    ensures
        parsed_files(contents, source, m) == parsed_files(contents, source, n),
    decreases m - n,
{
    if n < m {
        lemma_file_fault_stays(contents, source, n, m - 1);
    }
}

/// Reads the requests of several version files, given by their contents
/// from the one nearest the root to the one nearest the working directory.
/// The first line that is neither blank nor a request is the error.
pub fn parse_version_files(contents: &Vec<String>, source: PrecedenceSource) -> (out: Result<
    Vec<VersionSpec>,
    ParseError,
>)
    ensures
        match (out, parsed_files(views(contents@), source, contents.len() as int)) {
            (Ok(specs), Ok(expected)) => spec_views(specs@) == expected,
            (Err(error), Err(fault)) => {
                &&& error.source == source
                &&& error.file == fault.file
                &&& error.line == fault.line
                &&& error.failure == fault.failure
            },
            _ => false,
        },
{
    let ghost all = views(contents@);
    let mut specs: Vec<VersionSpec> = Vec::new();
    let mut i: usize = 0;
    assert(spec_views(specs@) =~= Seq::<SpecView>::empty());
    while i < contents.len()
        invariant
            i <= contents.len(),
            all == views(contents@),
            parsed_files(all, source, i as int) == Ok::<Seq<SpecView>, FileFault>(
                spec_views(specs@),
            ),
        decreases contents.len() - i,
    {
        assert(all[i as int] == contents[i as int]@);
        match parse_version_file(contents[i].as_str(), source, i) {
            Ok(more) => {
                append_specs(&mut specs, &more);
            },
            Err(error) => {
                proof {
                    lemma_file_fault_stays(all, source, i + 1, all.len() as int);
                }
                return Err(error);
            },
        }
        i += 1;
    }
    Ok(specs)
}

} // verus!
