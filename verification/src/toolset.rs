//! Version requests and their resolution into a toolset: one version per
//! plugin, the request from the source of highest precedence winning.

use crate::ordered_map::{get, get_table, lookup, tables, Pair};
use crate::settings::AliasMap;
use crate::text::str_eq;
use vstd::prelude::*;

verus! {

/// Where a version request comes from.  Later variants take precedence over
/// earlier ones.
#[derive(Debug, Clone, Copy, PartialEq, Eq, Structural)]
pub enum PrecedenceSource {
    /// The global default configuration.
    GlobalConfig,
    /// A version file in the directory or above it.
    LegacyFile,
    /// A project configuration file in the directory or above it.
    ProjectConfig,
    /// The command line.
    Cli,
}

impl PrecedenceSource {
    /// The precedence of the source as a number: the higher, the stronger.
    pub open spec fn rank(self) -> nat {
        match self {
            PrecedenceSource::GlobalConfig => 0,
            PrecedenceSource::LegacyFile => 1,
            PrecedenceSource::ProjectConfig => 2,
            PrecedenceSource::Cli => 3,
        }
    }

    /// The precedence of the source as a number.
    pub fn precedence(&self) -> (out: u8)
        ensures
            out == self.rank(),
    {
        match self {
            PrecedenceSource::GlobalConfig => 0,
            PrecedenceSource::LegacyFile => 1,
            PrecedenceSource::ProjectConfig => 2,
            PrecedenceSource::Cli => 3,
        }
    }
}

/// Which versions of a plugin a request accepts.
#[derive(Debug, Clone, PartialEq, Eq)]
pub enum VersionRequirement {
    /// Exactly this version.
    Exact(String),
    /// Any version that begins with this text.
    Prefix(String),
    /// The latest version there is.
    Latest,
    /// The version that an alias stands for.
    Alias(String),
    /// The runtime that the system provides.
    System,
}

/// A requirement as plain data.
pub enum RequirementView {
    Exact(Seq<char>),
    Prefix(Seq<char>),
    Latest,
    Alias(Seq<char>),
    System,
}

impl View for VersionRequirement {
    type V = RequirementView;

    open spec fn view(&self) -> RequirementView {
        match self {
            VersionRequirement::Exact(v) => RequirementView::Exact(v@),
            VersionRequirement::Prefix(p) => RequirementView::Prefix(p@),
            VersionRequirement::Latest => RequirementView::Latest,
            VersionRequirement::Alias(a) => RequirementView::Alias(a@),
            VersionRequirement::System => RequirementView::System,
        }
    }
}

/// A request for a version of a plugin.
#[derive(Debug, Clone, PartialEq, Eq)]
pub struct VersionSpec {
    pub plugin: String,
    pub requirement: VersionRequirement,
    pub source: PrecedenceSource,
}

/// A request as plain data.
pub struct SpecView {
    pub plugin: Seq<char>,
    pub requirement: RequirementView,
    pub source: PrecedenceSource,
}

impl View for VersionSpec {
    type V = SpecView;

    open spec fn view(&self) -> SpecView {
        SpecView { plugin: self.plugin@, requirement: self.requirement@, source: self.source }
    }
}

/// The requests as plain data.
pub open spec fn spec_views(specs: Seq<VersionSpec>) -> Seq<SpecView> {
    specs.map_values(|s: VersionSpec| s@)
}

/// The version chosen for a plugin.
#[derive(Debug, Clone, PartialEq, Eq)]
pub struct ResolvedTool {
    pub plugin: String,
    pub version: String,
    pub source: PrecedenceSource,
}

/// A chosen version as plain data.
pub struct ToolView {
    pub plugin: Seq<char>,
    pub version: Seq<char>,
    pub source: PrecedenceSource,
}

impl View for ResolvedTool {
    type V = ToolView;

    open spec fn view(&self) -> ToolView {
        ToolView { plugin: self.plugin@, version: self.version@, source: self.source }
    }
}

/// The tools as plain data.
pub open spec fn tool_views(tools: Seq<ResolvedTool>) -> Seq<ToolView> {
    tools.map_values(|t: ResolvedTool| t@)
}

/// The chosen versions, one per plugin, in the order in which the plugins
/// were first asked for.
#[derive(Debug, Clone, PartialEq, Eq)]
pub struct Toolset {
    pub tools: Vec<ResolvedTool>,
}

impl View for Toolset {
    type V = Seq<ToolView>;

    open spec fn view(&self) -> Seq<ToolView> {
        tool_views(self.tools@)
    }
}

/// Some tool is for `plugin`.
pub open spec fn has_plugin(tools: Seq<ToolView>, plugin: Seq<char>) -> bool {
    exists|i: int| 0 <= i < tools.len() && (#[trigger] tools[i]).plugin == plugin
}

/// The position of a tool for `plugin`, if there is one.
pub open spec fn plugin_index(tools: Seq<ToolView>, plugin: Seq<char>) -> int {
    choose|i: int| 0 <= i < tools.len() && (#[trigger] tools[i]).plugin == plugin
}

/// No two tools are for the same plugin.
pub open spec fn unique_plugins(tools: Seq<ToolView>) -> bool {
    forall|i: int, j: int|
        0 <= i < tools.len() && 0 <= j < tools.len() && (#[trigger] tools[i]).plugin == (
        #[trigger] tools[j]).plugin ==> i == j
}

/// The version that a requirement is resolved to, as text.  An alias gives
/// way to the version it stands for among the plugin's aliases; an alias
/// that stands for nothing is kept as it is, to fail when it is installed.
/// The other requirements are written out: a prefix as `prefix:` and the
/// text, the latest version as `latest`, the system's as `system`.
pub open spec fn version_text(requirement: RequirementView, aliases: Option<Seq<Pair>>) -> Seq<
    char,
> {
    match requirement {
        RequirementView::Exact(v) => v,
        RequirementView::Prefix(p) => "prefix:"@ + p,
        RequirementView::Latest => "latest"@,
        RequirementView::System => "system"@,
        RequirementView::Alias(a) => match aliases {
            Some(table) => match lookup(table, a) {
                Some(v) => v,
                None => a,
            },
            None => a,
        },
    }
}

/// The tool that a request asks for.
pub open spec fn tool_of(spec: SpecView, aliases: Seq<(Seq<char>, Seq<Pair>)>) -> ToolView {
    ToolView {
        plugin: spec.plugin,
        version: version_text(spec.requirement, lookup(aliases, spec.plugin)),
        source: spec.source,
    }
}

/// The tools after one more request.  A plugin not seen before goes last.
/// One seen before keeps its place, and takes the new version unless the new
/// request is of lower precedence than the one that it has.
pub open spec fn place(tools: Seq<ToolView>, tool: ToolView) -> Seq<ToolView> {
    if has_plugin(tools, tool.plugin) {
        let at = plugin_index(tools, tool.plugin);
        if tool.source.rank() >= tools[at].source.rank() {
            tools.update(at, tool)
        } else {
            tools
        }
    } else {
        tools.push(tool)
    }
}

/// The toolset that the requests resolve to, taken in order.
pub open spec fn resolved(specs: Seq<SpecView>, aliases: Seq<(Seq<char>, Seq<Pair>)>) -> Seq<
    ToolView,
>
    decreases specs.len(),
{
    if specs.len() == 0 {
        Seq::empty()
    } else {
        place(resolved(specs.drop_last(), aliases), tool_of(specs.last(), aliases))
    }
}

/// One more request keeps the plugins apart.
pub proof fn lemma_place_unique(tools: Seq<ToolView>, tool: ToolView)
    requires
        unique_plugins(tools),
    ensures
        unique_plugins(place(tools, tool)),
{
    let placed = place(tools, tool);
    assert forall|i: int, j: int|
        0 <= i < placed.len() && 0 <= j < placed.len() && (#[trigger] placed[i]).plugin == (
        #[trigger] placed[j]).plugin implies i == j by {
        if has_plugin(tools, tool.plugin) {
            let at = plugin_index(tools, tool.plugin);
            assert(tools[i].plugin == placed[i].plugin);
            assert(tools[j].plugin == placed[j].plugin);
        } else {
            if i < tools.len() {
                assert(tools[i] == placed[i]);
            }
            if j < tools.len() {
                assert(tools[j] == placed[j]);
            }
        }
    }
}

/// A resolved toolset has one tool per plugin.
pub proof fn lemma_resolved_unique(specs: Seq<SpecView>, aliases: Seq<(Seq<char>, Seq<Pair>)>)
    ensures
        unique_plugins(resolved(specs, aliases)),
    decreases specs.len(),
{
    if specs.len() > 0 {
        lemma_resolved_unique(specs.drop_last(), aliases);
        lemma_place_unique(resolved(specs.drop_last(), aliases), tool_of(specs.last(), aliases));
    }
}

impl Toolset {
    /// A toolset as it comes out of resolution: one tool per plugin.
    pub open spec fn well_formed(&self) -> bool {
        unique_plugins(self@)
    }

    /// The toolset without tools.
    pub fn new() -> (out: Toolset)
        ensures
            out@ == Seq::<ToolView>::empty(),
            out.well_formed(),
    {
        let out = Toolset { tools: Vec::new() };
        assert(out@ =~= Seq::<ToolView>::empty());
        out
    }

    /// The tool for `plugin`, if the toolset has one.
    pub fn get(&self, plugin: &str) -> (out: Option<&ResolvedTool>)
        ensures
            match out {
                Some(tool) => has_plugin(self@, plugin@) && tool.plugin@ == plugin@ && (
                self.well_formed() ==> tool@ == tool_for(self@, plugin@)),
                None => !has_plugin(self@, plugin@),
            },
    {
        match find_plugin(&self.tools, plugin) {
            Some(at) => {
                assert(self@[at as int] == self.tools[at as int]@);
                Some(&self.tools[at])
            },
            None => None,
        }
    }
}

/// Finds the first tool for `plugin`.
pub fn find_plugin(tools: &Vec<ResolvedTool>, plugin: &str) -> (found: Option<usize>)
    ensures
        match found {
            Some(at) => {
                &&& at < tools.len()
                &&& tools[at as int].plugin@ == plugin@
                &&& forall|j: int| 0 <= j < at ==> tools[j].plugin@ != plugin@
            },
            None => !has_plugin(tool_views(tools@), plugin@),
        },
{
    let mut i: usize = 0;
    while i < tools.len()
        invariant
            i <= tools.len(),
            forall|j: int| 0 <= j < i ==> tools[j].plugin@ != plugin@,
        decreases tools.len() - i,
    {
        if str_eq(tools[i].plugin.as_str(), plugin) {
            return Some(i);
        }
        i += 1;
    }
    assert forall|j: int| 0 <= j < tool_views(tools@).len() implies (#[trigger] tool_views(
        tools@,
    )[j]).plugin != plugin@ by {
        assert(tool_views(tools@)[j] == tools[j]@);
    }
    None
}

/// Resolves the requirement of a request to a version, as text.
pub fn resolve_version(spec: &VersionSpec, aliases: &AliasMap) -> (out: String)
    ensures
        out@ == version_text(spec.requirement@, lookup(tables(*aliases), spec.plugin@)),
{
    match &spec.requirement {
        VersionRequirement::Exact(v) => v.clone(),
        VersionRequirement::Prefix(p) => {
            let mut out = "prefix:".to_owned();
            out.append(p.as_str());
            out
        },
        VersionRequirement::Latest => "latest".to_owned(),
        VersionRequirement::System => "system".to_owned(),
        VersionRequirement::Alias(a) => {
            match get_table(aliases, spec.plugin.as_str()) {
                Some(table) => match get(table, a.as_str()) {
                    Some(v) => v.clone(),
                    None => a.clone(),
                },
                None => a.clone(),
            }
        },
    }
}

/// Resolves the requests into a toolset.  The requests are taken in order;
/// for each plugin the request of the highest precedence wins, the later one
/// among equals, and the plugins keep the order in which they first appear.
pub fn resolve(specs: &Vec<VersionSpec>, aliases: &AliasMap) -> (out: Toolset)
    ensures
        out@ == resolved(spec_views(specs@), tables(*aliases)),
        out.well_formed(),
{
    let ghost all = spec_views(specs@);
    let ghost known = tables(*aliases);
    let mut tools: Vec<ResolvedTool> = Vec::new();
    let mut i: usize = 0;
    assert(all.take(0) == Seq::<SpecView>::empty());
    assert(tool_views(tools@) =~= resolved(all.take(0), known));
    while i < specs.len()
        invariant
            i <= specs.len(),
            all == spec_views(specs@),
            known == tables(*aliases),
            tool_views(tools@) == resolved(all.take(i as int), known),
            unique_plugins(tool_views(tools@)),
        decreases specs.len() - i,
    {
        let spec = &specs[i];
        let ghost before = tool_views(tools@);
        let tool = ResolvedTool {
            plugin: spec.plugin.clone(),
            version: resolve_version(spec, aliases),
            source: spec.source,
        };
        proof {
            assert(all.take(i + 1).drop_last() == all.take(i as int));
            assert(all.take(i + 1).last() == spec@);
            assert(tool@ == tool_of(spec@, known));
            lemma_place_unique(before, tool@);
        }
        match find_plugin(&tools, spec.plugin.as_str()) {
            Some(at) => {
                assert(before[at as int] == tools[at as int]@);
                assert(plugin_index(before, tool@.plugin) == at);
                if tool.source.precedence() >= tools[at].source.precedence() {
                    tools.set(at, tool);
                    assert(tool_views(tools@) =~= before.update(at as int, tool@));
                }
            },
            None => {
                tools.push(tool);
                assert(tool_views(tools@) =~= before.push(tool@));
            },
        }
        i += 1;
    }
    assert(all.take(all.len() as int) == all);
    Toolset { tools }
}

/// Every tool of a resolved toolset is the tool that one of the requests
/// asks for.
pub proof fn lemma_tool_origin(
    specs: Seq<SpecView>,
    aliases: Seq<(Seq<char>, Seq<Pair>)>,
    k: int,
) -> (j: int)
    requires
        0 <= k < resolved(specs, aliases).len(),
    ensures
        0 <= j < specs.len(),
        resolved(specs, aliases)[k] == tool_of(specs[j], aliases),
    decreases specs.len(),
{
    let front = specs.drop_last();
    let before = resolved(front, aliases);
    let tool = tool_of(specs.last(), aliases);
    let after = place(before, tool);
    if after[k] == tool {
        specs.len() - 1
    } else {
        assert(k < before.len() && before[k] == after[k]);
        let j = lemma_tool_origin(front, aliases, k);
        assert(front[j] == specs[j]);
        j
    }
}

/// The request at `i` is the one that counts for its plugin: every other
/// request for the plugin is of lower precedence, or of the same and not
/// later.
pub open spec fn winning(specs: Seq<SpecView>, i: int) -> bool {
    &&& 0 <= i < specs.len()
    &&& forall|j: int|
        0 <= j < specs.len() && (#[trigger] specs[j]).plugin == specs[i].plugin ==> {
            ||| specs[j].source.rank() < specs[i].source.rank()
            ||| specs[j].source.rank() == specs[i].source.rank() && j <= i
        }
}

/// The tool for `plugin` in a toolset that has one.
pub open spec fn tool_for(tools: Seq<ToolView>, plugin: Seq<char>) -> ToolView {
    tools[plugin_index(tools, plugin)]
}

/// Precedence: the toolset holds, for each plugin, the tool of the request
/// that counts for it, wherever in the order the other requests for the
/// plugin stand.
pub proof fn lemma_winner(specs: Seq<SpecView>, aliases: Seq<(Seq<char>, Seq<Pair>)>, i: int)
    requires
        winning(specs, i),
    ensures
        has_plugin(resolved(specs, aliases), specs[i].plugin),
        tool_for(resolved(specs, aliases), specs[i].plugin) == tool_of(specs[i], aliases),
    decreases specs.len(),
{
    let plugin = specs[i].plugin;
    let front = specs.drop_last();
    let before = resolved(front, aliases);
    let tool = tool_of(specs.last(), aliases);
    let after = place(before, tool);
    lemma_resolved_unique(front, aliases);
    lemma_place_unique(before, tool);
    if i == specs.len() - 1 {
        if has_plugin(before, plugin) {
            let at = plugin_index(before, plugin);
            let j = lemma_tool_origin(front, aliases, at);
            assert(front[j] == specs[j]);
            assert(specs[j].plugin == plugin);
            assert(after[at] == tool);
        } else {
            assert(after[before.len() as int] == tool);
        }
    } else {
        assert(winning(front, i)) by {
            assert forall|j: int|
                0 <= j < front.len() && (#[trigger] front[j]).plugin == front[i].plugin implies {
                ||| front[j].source.rank() < front[i].source.rank()
                ||| front[j].source.rank() == front[i].source.rank() && j <= i
            } by {
                assert(front[j] == specs[j]);
                assert(front[i] == specs[i]);
            }
        }
        lemma_winner(front, aliases, i);
        assert(front[i] == specs[i]);
        let at = plugin_index(before, plugin);
        assert(before[at] == tool_of(specs[i], aliases));
        if tool.plugin == plugin {
            assert(specs[specs.len() - 1].plugin == plugin);
            assert(after == before);
        } else {
            assert(after[at] == before[at]);
        }
    }
}

/// A request from the command line is never overruled by one from a file:
/// the tool for its plugin comes from the command line.
pub proof fn lemma_cli_wins(specs: Seq<SpecView>, aliases: Seq<(Seq<char>, Seq<Pair>)>, i: int)
    requires
        0 <= i < specs.len(),
        specs[i].source == PrecedenceSource::Cli,
    ensures
        has_plugin(resolved(specs, aliases), specs[i].plugin),
        tool_for(resolved(specs, aliases), specs[i].plugin).source == PrecedenceSource::Cli,
{
    let last = last_from_cli(specs, specs[i].plugin, specs.len() as int);
    lemma_last_from_cli(specs, specs[i].plugin, specs.len() as int, i);
    lemma_winner(specs, aliases, last);
}

/// The position of the last request for `plugin` from the command line among
/// the first `n` requests, or -1.
pub open spec fn last_from_cli(specs: Seq<SpecView>, plugin: Seq<char>, n: int) -> int
    decreases n,
{
    if n <= 0 {
        -1
    } else if n <= specs.len() && specs[n - 1].plugin == plugin && specs[n - 1].source
        == PrecedenceSource::Cli {
        n - 1
    } else {
        last_from_cli(specs, plugin, n - 1)
    }
}

proof fn lemma_last_from_cli(specs: Seq<SpecView>, plugin: Seq<char>, n: int, i: int)
    requires
        0 <= i < n <= specs.len(),
        specs[i].plugin == plugin,
        specs[i].source == PrecedenceSource::Cli,
    ensures
        ({
            let last = last_from_cli(specs, plugin, n);
            &&& i <= last < n
            &&& specs[last].plugin == plugin
            &&& specs[last].source == PrecedenceSource::Cli
            &&& forall|j: int|
                last < j < n && (#[trigger] specs[j]).plugin == plugin ==> specs[j].source
                    != PrecedenceSource::Cli
        }),
    decreases n,
{
    if specs[n - 1].plugin == plugin && specs[n - 1].source == PrecedenceSource::Cli {
    } else {
        lemma_last_from_cli(specs, plugin, n - 1, i);
    }
}

/// The names in the order in which they first appear, each once.
pub open spec fn first_seen(names: Seq<Seq<char>>) -> Seq<Seq<char>>
    decreases names.len(),
{
    if names.len() == 0 {
        Seq::empty()
    } else {
        let front = first_seen(names.drop_last());
        if front.contains(names.last()) {
            front
        } else {
            front.push(names.last())
        }
    }
}

/// The plugins of the tools, in order.
pub open spec fn plugins_of(tools: Seq<ToolView>) -> Seq<Seq<char>> {
    tools.map_values(|t: ToolView| t.plugin)
}

/// The plugins of the requests, in order.
pub open spec fn plugins_asked(specs: Seq<SpecView>) -> Seq<Seq<char>> {
    specs.map_values(|s: SpecView| s.plugin)
}

/// Order: the toolset lists the plugins in the order in which the requests
/// first name them, whichever request wins.
pub proof fn lemma_first_seen_order(specs: Seq<SpecView>, aliases: Seq<(Seq<char>, Seq<Pair>)>)
    ensures
        plugins_of(resolved(specs, aliases)) == first_seen(plugins_asked(specs)),
    decreases specs.len(),
{
    if specs.len() > 0 {
        let front = specs.drop_last();
        let before = resolved(front, aliases);
        let tool = tool_of(specs.last(), aliases);
        let after = place(before, tool);
        lemma_first_seen_order(front, aliases);
        assert(plugins_asked(specs).drop_last() == plugins_asked(front));
        assert(plugins_asked(specs).last() == tool.plugin);
        let seen = plugins_of(before);
        if has_plugin(before, tool.plugin) {
            let at = plugin_index(before, tool.plugin);
            assert(seen[at] == tool.plugin);
            assert(seen.contains(tool.plugin));
            assert(plugins_of(after) =~= seen);
        } else {
            if seen.contains(tool.plugin) {
                let at = choose|at: int| 0 <= at < seen.len() && seen[at] == tool.plugin;
                assert(before[at].plugin == tool.plugin);
            }
            assert(plugins_of(after) =~= seen.push(tool.plugin));
        }
    }
}

/// Determinism: resolution depends on nothing but what the requests and the
/// aliases hold.  Requests that hold the same, resolved with aliases that
/// hold the same, give the same toolset.
pub proof fn lemma_resolve_deterministic(
    first: Seq<VersionSpec>,
    second: Seq<VersionSpec>,
    first_aliases: AliasMap,
    second_aliases: AliasMap,
)
    requires
        spec_views(first) == spec_views(second),
        tables(first_aliases) == tables(second_aliases),
    ensures
        resolved(spec_views(first), tables(first_aliases)) == resolved(
            spec_views(second),
            tables(second_aliases),
        ),
{
}

} // verus!
