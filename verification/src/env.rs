//! The environment that a toolset asks for: directories to put in front of
//! the search path, and variables to set.

use crate::install::Provisioned;
use crate::ordered_map::{
    clone_map, entries, has_key, insert, lemma_upsert_unique, new_map, unique_keys, upsert, Pair,
};
use crate::path::{all_colon_free, colon_free, holds_colon};
use crate::plugin::PluginAdapter;
use crate::text::{clone_strings, str_eq, views};
use indexmap::IndexMap;
use vstd::prelude::*;

verus! {

/// The variable that holds the search path.
pub const PATH: &'static str = "PATH";

/// The variable in which the hook records what it last did to the shell.
pub const MARKER: &'static str = "__RTX_DIFF";

/// What a toolset adds to a shell's environment.
#[derive(Debug)]
pub struct EnvironmentPatch {
    /// Directories to put in front of the search path, first first.
    pub path_prepend: Vec<String>,
    /// Variables to set, in the order the tools were resolved.
    pub vars: IndexMap<String, String>,
}

/// A patch as plain data.
pub struct PatchView {
    pub paths: Seq<Seq<char>>,
    pub vars: Seq<Pair>,
}

impl View for EnvironmentPatch {
    type V = PatchView;

    open spec fn view(&self) -> PatchView {
        PatchView { paths: views(self.path_prepend@), vars: entries(self.vars) }
    }
}

impl Clone for EnvironmentPatch {
    fn clone(&self) -> (out: EnvironmentPatch)
        ensures
            out@ == self@,
    {
        EnvironmentPatch {
            path_prepend: clone_strings(&self.path_prepend),
            vars: clone_map(&self.vars),
        }
    }
}

impl EnvironmentPatch {
    /// The patch that changes nothing.
    pub fn new() -> (out: EnvironmentPatch)
        ensures
            out@ == PatchView::empty(),
    {
        let out = EnvironmentPatch { path_prepend: Vec::new(), vars: new_map() };
        assert(out@.paths =~= PatchView::empty().paths);
        out
    }
}

impl PatchView {
    /// The patch that changes nothing.
    pub open spec fn empty() -> PatchView {
        PatchView { paths: Seq::empty(), vars: Seq::empty() }
    }

    /// A patch that a shell can take and the hook can undo: no directory
    /// holds a colon, no variable is set twice, and neither the search path
    /// nor the hook's own record is among the variables.
    pub open spec fn well_formed(self) -> bool {
        &&& all_colon_free(self.paths)
        &&& unique_keys(self.vars)
        &&& !has_key(self.vars, PATH@)
        &&& !has_key(self.vars, MARKER@)
    }
}

/// What one installed tool contributes to the environment.
#[derive(Debug, Clone, PartialEq, Eq)]
pub struct ToolEnv {
    /// The directories with its executables.
    pub bin_paths: Vec<String>,
    /// The variables it wants set.
    pub env: Vec<(String, String)>,
}

/// A contribution as plain data.
pub struct ToolEnvView {
    pub bin_paths: Seq<Seq<char>>,
    pub env: Seq<Pair>,
}

/// Names and values as plain data.
pub open spec fn pair_views(pairs: Seq<(String, String)>) -> Seq<Pair> {
    pairs.map_values(|p: (String, String)| (p.0@, p.1@))
}

impl View for ToolEnv {
    type V = ToolEnvView;

    open spec fn view(&self) -> ToolEnvView {
        ToolEnvView { bin_paths: views(self.bin_paths@), env: pair_views(self.env@) }
    }
}

/// The contributions as plain data.
pub open spec fn tool_env_views(contributions: Seq<ToolEnv>) -> Seq<ToolEnvView> {
    contributions.map_values(|c: ToolEnv| c@)
}

/// A name that the hook keeps for itself.
pub open spec fn reserved(name: Seq<char>) -> bool {
    name == PATH@ || name == MARKER@
}

/// The directories that a search path can hold: those without a colon.
pub open spec fn accepted_paths(paths: Seq<Seq<char>>) -> Seq<Seq<char>>
    decreases paths.len(),
{
    if paths.len() == 0 {
        Seq::empty()
    } else {
        let front = accepted_paths(paths.drop_last());
        if colon_free(paths.last()) {
            front.push(paths.last())
        } else {
            front
        }
    }
}

/// The variables after one tool's variables are laid over them, one by
/// one: a name already set takes the new value and keeps its place, a new
/// name goes last, and a reserved name is passed over.
pub open spec fn merged(vars: Seq<Pair>, env: Seq<Pair>) -> Seq<Pair>
    decreases env.len(),
{
    if env.len() == 0 {
        vars
    } else {
        let front = merged(vars, env.drop_last());
        if reserved(env.last().0) {
            front
        } else {
            upsert(front, env.last().0, env.last().1)
        }
    }
}

/// The patch with one more tool's contribution: its directories behind those
/// already there, its variables laid over those already set.
pub open spec fn with_tool(patch: PatchView, tool: ToolEnvView) -> PatchView {
    PatchView {
        paths: patch.paths + accepted_paths(tool.bin_paths),
        vars: merged(patch.vars, tool.env),
    }
}

/// Whether the tool at `i` can be used; one without a note cannot.
pub open spec fn usable_at(usable: Seq<bool>, i: int) -> bool {
    0 <= i < usable.len() && usable[i]
}

/// The patch of the first `n` tools: the contributions of those that can be
/// used, in the order of the tools.
pub open spec fn assembled(usable: Seq<bool>, contributions: Seq<ToolEnvView>, n: int)
    -> PatchView
    decreases n,
{
    if n <= 0 || n > contributions.len() {
        PatchView::empty()
    } else {
        let front = assembled(usable, contributions, n - 1);
        if usable_at(usable, n - 1) {
            with_tool(front, contributions[n - 1])
        } else {
            front
        }
    }
}

/// Directories that a search path can hold stay so when more are accepted.
pub proof fn lemma_accepted_paths(paths: Seq<Seq<char>>)
    ensures
        all_colon_free(accepted_paths(paths)),
        forall|i: int|
            0 <= i < paths.len() && colon_free(#[trigger] paths[i]) ==> accepted_paths(
                paths,
            ).contains(paths[i]),
    decreases paths.len(),
{
    if paths.len() > 0 {
        let front = paths.drop_last();
        lemma_accepted_paths(front);
        let kept = accepted_paths(front);
        let all = accepted_paths(paths);
        assert forall|i: int| 0 <= i < all.len() implies colon_free(#[trigger] all[i]) by {
            if i < kept.len() {
                assert(all[i] == kept[i]);
            }
        }
        assert forall|i: int| 0 <= i < paths.len() && colon_free(#[trigger] paths[i]) implies all
            .contains(paths[i]) by {
            if i < front.len() {
                assert(front[i] == paths[i]);
                let at = choose|at: int| 0 <= at < kept.len() && kept[at] == paths[i];
                assert(all[at] == paths[i]);
            } else {
                assert(all[all.len() - 1] == paths[i]);
            }
        }
    }
}

/// Laying variables over well-kept variables keeps them well.
pub proof fn lemma_merged(vars: Seq<Pair>, env: Seq<Pair>)
    requires
        unique_keys(vars),
        !has_key(vars, PATH@),
        !has_key(vars, MARKER@),
    ensures
        unique_keys(merged(vars, env)),
        !has_key(merged(vars, env), PATH@),
        !has_key(merged(vars, env), MARKER@),
    decreases env.len(),
{
    if env.len() > 0 {
        lemma_merged(vars, env.drop_last());
        let front = merged(vars, env.drop_last());
        if !reserved(env.last().0) {
            lemma_upsert_unique(front, env.last().0, env.last().1);
        }
    }
}

/// Every patch put together from contributions is well formed.
pub proof fn lemma_assembled_well_formed(
    usable: Seq<bool>,
    contributions: Seq<ToolEnvView>,
    n: int,
)
    ensures
        assembled(usable, contributions, n).well_formed(),
    decreases n,
{
    if n <= 0 || n > contributions.len() {
    } else {
        lemma_assembled_well_formed(usable, contributions, n - 1);
        let front = assembled(usable, contributions, n - 1);
        if usable_at(usable, n - 1) {
            let tool = contributions[n - 1];
            lemma_accepted_paths(tool.bin_paths);
            lemma_merged(front.vars, tool.env);
            let all = front.paths + accepted_paths(tool.bin_paths);
            assert forall|i: int| 0 <= i < all.len() implies colon_free(#[trigger] all[i]) by {
                if i < front.paths.len() {
                    assert(all[i] == front.paths[i]);
                } else {
                    assert(all[i] == accepted_paths(tool.bin_paths)[i - front.paths.len()]);
                }
            }
        }
    }
}

/// A tool that cannot be used contributes nothing: whatever stands in its
/// place among the contributions, the patch is the same.
pub proof fn lemma_unusable_contributes_nothing(
    usable: Seq<bool>,
    contributions: Seq<ToolEnvView>,
    i: int,
    other: ToolEnvView,
    n: int,
)
    requires
        0 <= i < contributions.len(),
        !usable_at(usable, i),
    ensures
        assembled(usable, contributions.update(i, other), n) == assembled(
            usable,
            contributions,
            n,
        ),
    decreases n,
{
    if n <= 0 || n > contributions.len() {
    } else {
        lemma_unusable_contributes_nothing(usable, contributions, i, other, n - 1);
    }
}

/// A tool that can be used contributes its directories: each of them that a
/// search path can hold is in the patch.
pub proof fn lemma_usable_paths_appear(
    usable: Seq<bool>,
    contributions: Seq<ToolEnvView>,
    i: int,
    k: int,
    n: int,
)
    requires
        0 <= i < n <= contributions.len(),
        usable_at(usable, i),
        0 <= k < contributions[i].bin_paths.len(),
        colon_free(contributions[i].bin_paths[k]),
    ensures
        assembled(usable, contributions, n).paths.contains(contributions[i].bin_paths[k]),
    decreases n,
{
    let wanted = contributions[i].bin_paths[k];
    let front = assembled(usable, contributions, n - 1);
    let all = assembled(usable, contributions, n);
    if i == n - 1 {
        lemma_accepted_paths(contributions[i].bin_paths);
        let kept = accepted_paths(contributions[i].bin_paths);
        let at = choose|at: int| 0 <= at < kept.len() && kept[at] == wanted;
        assert(all.paths[front.paths.len() + at] == wanted);
    } else {
        lemma_usable_paths_appear(usable, contributions, i, k, n - 1);
        let at = choose|at: int| 0 <= at < front.paths.len() && front.paths[at] == wanted;
        assert(all.paths[at] == wanted);
    }
}

/// Puts the patch together from the contributions of the tools, in order.
/// `usable` says for each tool whether it can be used; one that cannot is
/// passed over.  Earlier tools come first on the search path; of two tools
/// that set the same variable the later one wins.
pub fn assemble(usable: &Vec<bool>, contributions: &Vec<ToolEnv>) -> (out: EnvironmentPatch)
    ensures
        out@ == assembled(usable@, tool_env_views(contributions@), contributions.len() as int),
        out@.well_formed(),
{
    let ghost all = tool_env_views(contributions@);
    let mut out = EnvironmentPatch::new();
    let mut i: usize = 0;
    while i < contributions.len()
        invariant
            i <= contributions.len(),
            all == tool_env_views(contributions@),
            out@ == assembled(usable@, all, i as int),
        decreases contributions.len() - i,
    {
        let tool = &contributions[i];
        assert(all[i as int] == tool@);
        if i < usable.len() && usable[i] {
            add_paths(&mut out.path_prepend, &tool.bin_paths);
            add_vars(&mut out.vars, &tool.env);
        }
        i += 1;
    }
    proof {
        lemma_assembled_well_formed(usable@, all, contributions.len() as int);
    }
    out
}

/// Appends the directories that a search path can hold.
fn add_paths(paths: &mut Vec<String>, more: &Vec<String>)
    ensures
        views(final(paths)@) == views(old(paths)@) + accepted_paths(views(more@)),
{
    let ghost before = views(paths@);
    let ghost all = views(more@);
    let mut i: usize = 0;
    assert(all.take(0) == Seq::<Seq<char>>::empty());
    assert(before + accepted_paths(all.take(0)) == before);
    while i < more.len()
        invariant
            i <= more.len(),
            all == views(more@),
            views(paths@) == before + accepted_paths(all.take(i as int)),
        decreases more.len() - i,
    {
        let ghost so_far = views(paths@);
        assert(all.take(i + 1).drop_last() == all.take(i as int));
        assert(all.take(i + 1).last() == more[i as int]@);
        if !holds_colon(more[i].as_str()) {
            paths.push(more[i].clone());
            assert(views(paths@) =~= so_far.push(more[i as int]@));
            assert(views(paths@) =~= before + accepted_paths(all.take(i + 1)));
        }
        i += 1;
    }
    assert(all.take(all.len() as int) == all);
}

/// Lays variables over those already set.
fn add_vars(vars: &mut indexmap::IndexMap<String, String>, more: &Vec<(String, String)>)
    ensures
        entries(*final(vars)) == merged(entries(*old(vars)), pair_views(more@)),
{
    let ghost before = entries(*vars);
    let ghost all = pair_views(more@);
    let mut i: usize = 0;
    assert(all.take(0) == Seq::<Pair>::empty());
    while i < more.len()
        invariant
            i <= more.len(),
            all == pair_views(more@),
            entries(*vars) == merged(before, all.take(i as int)),
        decreases more.len() - i,
    {
        assert(all.take(i + 1).drop_last() == all.take(i as int));
        assert(all.take(i + 1).last() == (more[i as int].0@, more[i as int].1@));
        let name = &more[i].0;
        let value = &more[i].1;
        if !(str_eq(name.as_str(), PATH) || str_eq(name.as_str(), MARKER)) {
            insert(vars, name.clone(), value.clone());
        }
        i += 1;
    }
    assert(all.take(all.len() as int) == all);
}

/// None of the first `n` tools can be used.
pub open spec fn none_usable(usable: Seq<bool>, n: int) -> bool {
    forall|i: int| 0 <= i < n ==> !#[trigger] usable_at(usable, i)
}

/// Where no tool can be used the patch changes nothing, whatever the
/// contributions are.
pub proof fn lemma_none_usable(usable: Seq<bool>, contributions: Seq<ToolEnvView>, n: int)
    requires
        none_usable(usable, n),
    ensures
        assembled(usable, contributions, n) == PatchView::empty(),
    decreases n,
{
    if n <= 0 || n > contributions.len() {
    } else {
        assert(!usable_at(usable, n - 1));
        lemma_none_usable(usable, contributions, n - 1);
    }
}

/// The patch is put together from one contribution for each of `tools`
/// tools, in their order, those of tools that cannot be used left out.
pub open spec fn built_from(patch: PatchView, usable: Seq<bool>, tools: int) -> bool {
    exists|contributions: Seq<ToolEnvView>|
        contributions.len() == tools && patch == #[trigger] assembled(
            usable,
            contributions,
            tools,
        )
}

/// Builds the patch of a toolset: asks the adapter, for each tool that can
/// be used, for its directories and variables, and puts them together.
/// Tools that cannot be used are not asked about and contribute nothing.
/// Whatever the adapter answers, the patch is the one that its answers
/// assemble to, tool by tool in the order of the toolset, and it is well
/// formed; where no tool can be used, the adapter is not asked and the
/// patch changes nothing.
pub fn build<A: PluginAdapter>(provisioned: &Provisioned, adapter: &mut A) -> (out:
    EnvironmentPatch)
    ensures
        out@.well_formed(),
        built_from(out@, provisioned.usable@, provisioned.toolset@.len() as int),
        none_usable(provisioned.usable@, provisioned.toolset@.len() as int) ==> out@
            == PatchView::empty(),
{
    let mut contributions: Vec<ToolEnv> = Vec::new();
    let tools = &provisioned.toolset.tools;
    let mut i: usize = 0;
    while i < tools.len()
        invariant
            i <= tools.len(),
            contributions.len() == i,
        decreases tools.len() - i,
    {
        let tool = &tools[i];
        let contribution = if i < provisioned.usable.len() && provisioned.usable[i] {
            ToolEnv {
                bin_paths: adapter.bin_paths(tool.plugin.as_str(), tool.version.as_str()),
                env: adapter.exec_env(tool.plugin.as_str(), tool.version.as_str()),
            }
        } else {
            ToolEnv { bin_paths: Vec::new(), env: Vec::new() }
        };
        contributions.push(contribution);
        i += 1;
    }
    let out = assemble(&provisioned.usable, &contributions);
    proof {
        let answers = tool_env_views(contributions@);
        let count = provisioned.toolset@.len() as int;
        assert(answers.len() == count);
        assert(out@ == assembled(provisioned.usable@, answers, count));
        if none_usable(provisioned.usable@, count) {
            lemma_none_usable(provisioned.usable@, answers, count);
        }
    }
    out
}

} // verus!
