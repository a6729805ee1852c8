//! Installing what a toolset lacks: which versions to install under the
//! policy in force, each of them once, and what has become of the toolset
//! when every install has ended.

use crate::plugin::{PluginAdapter, Terminal};
use crate::settings::MissingRuntimeBehavior;
use crate::text::{str_eq, views};
use crate::toolset::{tool_views, ResolvedTool, ToolView, Toolset};
use vstd::prelude::*;

verus! {

/// A plugin and a version of it.
pub type JobView = (Seq<char>, Seq<char>);

/// One version of one plugin, to be installed.
#[derive(Debug, Clone, PartialEq, Eq)]
pub struct InstallJob {
    pub plugin: String,
    pub version: String,
}

impl View for InstallJob {
    type V = JobView;

    open spec fn view(&self) -> JobView {
        (self.plugin@, self.version@)
    }
}

/// The jobs as plain data.
pub open spec fn job_views(jobs: Seq<InstallJob>) -> Seq<JobView> {
    jobs.map_values(|j: InstallJob| j@)
}

/// The answer to the question whether to install a missing version.
#[derive(Debug, Clone, Copy, PartialEq, Eq, Structural)]
pub enum PromptAnswer {
    /// Yes.
    Confirmed,
    /// No.
    Declined,
    /// Nobody could be asked.
    Unanswerable,
}

/// What is done about one tool of a toolset.
#[derive(Debug, Clone, Copy, PartialEq, Eq, Structural)]
pub enum Decision {
    /// It is installed already.
    Present,
    /// It is missing and gets installed.
    Install,
    /// It is missing and stays so, with a warning.
    Warn,
    /// It is missing and stays so, silently.
    Skip,
    /// It is missing, and whether to install it could not be asked: the tool
    /// stays missing and counts as failed.
    Fail,
}

/// What is done about a tool, given whether it is installed, the policy, and
/// the answer where the policy is to ask.  A tool that is installed needs
/// nothing.  A missing one is installed under `AutoInstall`, and under
/// `Prompt` when the answer is yes; it stays missing with a warning under
/// `Warn`, and under `Prompt` when the answer is no; it stays missing
/// silently under `Ignore`; and it counts as failed under `Prompt` when
/// nobody could be asked.
pub open spec fn decision(
    policy: MissingRuntimeBehavior,
    installed: bool,
    answer: PromptAnswer,
) -> Decision {
    if installed {
        Decision::Present
    } else {
        match policy {
            MissingRuntimeBehavior::AutoInstall => Decision::Install,
            MissingRuntimeBehavior::Prompt => match answer {
                PromptAnswer::Confirmed => Decision::Install,
                PromptAnswer::Declined => Decision::Warn,
                PromptAnswer::Unanswerable => Decision::Fail,
            },
            MissingRuntimeBehavior::Warn => Decision::Warn,
            MissingRuntimeBehavior::Ignore => Decision::Skip,
        }
    }
}

/// Decides what is done about a tool.
pub fn decide(policy: MissingRuntimeBehavior, installed: bool, answer: PromptAnswer) -> (out:
    Decision)
    ensures
        out == decision(policy, installed, answer),
{
    if installed {
        Decision::Present
    } else {
        match policy {
            MissingRuntimeBehavior::AutoInstall => Decision::Install,
            MissingRuntimeBehavior::Prompt => match answer {
                PromptAnswer::Confirmed => Decision::Install,
                PromptAnswer::Declined => Decision::Warn,
                PromptAnswer::Unanswerable => Decision::Fail,
            },
            MissingRuntimeBehavior::Warn => Decision::Warn,
            MissingRuntimeBehavior::Ignore => Decision::Skip,
        }
    }
}

/// Tells whether `version` is among the installed versions.
pub fn contains_version(installed: &Vec<String>, version: &str) -> (yes: bool)
    ensures
        yes == views(installed@).contains(version@),
{
    let mut i: usize = 0;
    while i < installed.len()
        invariant
            i <= installed.len(),
            forall|j: int| 0 <= j < i ==> installed[j]@ != version@,
        decreases installed.len() - i,
    {
        if str_eq(installed[i].as_str(), version) {
            assert(views(installed@)[i as int] == version@);
            return true;
        }
        i += 1;
    }
    assert forall|j: int| 0 <= j < views(installed@).len() implies views(installed@)[j]
        != version@ by {
        assert(views(installed@)[j] == installed[j]@);
    }
    false
}

/// The decision for the tool at `i`; a tool without one is passed over.
pub open spec fn decision_at(decisions: Seq<Decision>, i: int) -> Decision {
    if 0 <= i < decisions.len() {
        decisions[i]
    } else {
        Decision::Skip
    }
}

/// The job that installs a tool.
pub open spec fn job_of(tool: ToolView) -> JobView {
    (tool.plugin, tool.version)
}

/// The jobs for the first `n` tools: the plugin and version of every tool
/// that gets installed, in the order of the tools, each pair once.
pub open spec fn scheduled(tools: Seq<ToolView>, decisions: Seq<Decision>, n: int) -> Seq<JobView>
    decreases n,
{
    if n <= 0 || n > tools.len() {
        Seq::empty()
    } else {
        let front = scheduled(tools, decisions, n - 1);
        let job = job_of(tools[n - 1]);
        if decision_at(decisions, n - 1) == Decision::Install && !front.contains(job) {
            front.push(job)
        } else {
            front
        }
    }
}

/// No job occurs twice.
pub open spec fn distinct(jobs: Seq<JobView>) -> bool {
    forall|i: int, j: int|
        0 <= i < jobs.len() && 0 <= j < jobs.len() && #[trigger] jobs[i] == #[trigger] jobs[j]
            ==> i == j
}

/// One of the first `n` tools gets installed by `job`.
pub open spec fn asked_for(tools: Seq<ToolView>, decisions: Seq<Decision>, n: int, job: JobView)
    -> bool {
    exists|i: int|
        0 <= i < n && i < tools.len() && decision_at(decisions, i) == Decision::Install && job_of(
            #[trigger] tools[i],
        ) == job
}

/// Dedup: however often a version of a plugin is asked for, it is scheduled
/// once; whatever is to be installed is scheduled; and nothing else is.
pub proof fn lemma_scheduled_once(tools: Seq<ToolView>, decisions: Seq<Decision>, n: int)
    requires
        0 <= n <= tools.len(),
    ensures
        distinct(scheduled(tools, decisions, n)),
        forall|job: JobView|
            #![trigger scheduled(tools, decisions, n).contains(job)]
            #![trigger asked_for(tools, decisions, n, job)]
            scheduled(tools, decisions, n).contains(job) <==> asked_for(tools, decisions, n, job),
    decreases n,
{
    if n > 0 {
        lemma_scheduled_once(tools, decisions, n - 1);
        let front = scheduled(tools, decisions, n - 1);
        let all = scheduled(tools, decisions, n);
        let last = job_of(tools[n - 1]);
        assert forall|job: JobView| all.contains(job) <==> asked_for(
            tools,
            decisions,
            n,
            job,
        ) by {
            if all.contains(job) {
                let at = choose|at: int| 0 <= at < all.len() && all[at] == job;
                if at < front.len() {
                    assert(front[at] == job);
                    assert(front.contains(job));
                    let i = choose|i: int|
                        0 <= i < n - 1 && i < tools.len() && decision_at(decisions, i)
                            == Decision::Install && job_of(#[trigger] tools[i]) == job;
                    assert(job_of(tools[i]) == job);
                } else {
                    assert(job_of(tools[n - 1]) == job);
                }
            }
            if asked_for(tools, decisions, n, job) {
                let i = choose|i: int|
                    0 <= i < n && i < tools.len() && decision_at(decisions, i)
                        == Decision::Install && job_of(#[trigger] tools[i]) == job;
                if i < n - 1 {
                    assert(asked_for(tools, decisions, n - 1, job));
                    let at = choose|at: int| 0 <= at < front.len() && front[at] == job;
                    assert(all[at] == job);
                } else if front.contains(job) {
                    let at = choose|at: int| 0 <= at < front.len() && front[at] == job;
                    assert(all[at] == job);
                } else {
                    assert(all[front.len() as int] == job);
                }
            }
        }
    } else {
        let all = scheduled(tools, decisions, n);
        assert forall|job: JobView| all.contains(job) <==> asked_for(
            tools,
            decisions,
            n,
            job,
        ) by {}
    }
}

/// Tells whether a job for the plugin and version is among the jobs.
fn has_job(jobs: &Vec<InstallJob>, plugin: &str, version: &str) -> (yes: bool)
    ensures
        yes == job_views(jobs@).contains((plugin@, version@)),
{
    let mut i: usize = 0;
    while i < jobs.len()
        invariant
            i <= jobs.len(),
            forall|j: int| 0 <= j < i ==> jobs[j]@ != (plugin@, version@),
        decreases jobs.len() - i,
    {
        if str_eq(jobs[i].plugin.as_str(), plugin) && str_eq(jobs[i].version.as_str(), version) {
            assert(job_views(jobs@)[i as int] == (plugin@, version@));
            return true;
        }
        i += 1;
    }
    assert forall|j: int| 0 <= j < job_views(jobs@).len() implies job_views(jobs@)[j] != (
        plugin@,
        version@,
    ) by {
        assert(job_views(jobs@)[j] == jobs[j]@);
    }
    false
}

/// Lists the installs to run: one job for every version of a plugin that is
/// to be installed, however many tools ask for it.
pub fn schedule(tools: &Vec<ResolvedTool>, decisions: &Vec<Decision>) -> (jobs: Vec<InstallJob>)
    ensures
        job_views(jobs@) == scheduled(tool_views(tools@), decisions@, tools.len() as int),
        distinct(job_views(jobs@)),
{
    let ghost all = tool_views(tools@);
    let mut jobs: Vec<InstallJob> = Vec::new();
    let mut i: usize = 0;
    assert(job_views(jobs@) =~= scheduled(all, decisions@, 0));
    while i < tools.len()
        invariant
            i <= tools.len(),
            all == tool_views(tools@),
            job_views(jobs@) == scheduled(all, decisions@, i as int),
        decreases tools.len() - i,
    {
        let ghost before = job_views(jobs@);
        let tool = &tools[i];
        assert(all[i as int] == tool@);
        let install = if i < decisions.len() {
            match decisions[i] {
                Decision::Install => true,
                _ => false,
            }
        } else {
            false
        };
        if install && !has_job(&jobs, tool.plugin.as_str(), tool.version.as_str()) {
            jobs.push(InstallJob { plugin: tool.plugin.clone(), version: tool.version.clone() });
            assert(job_views(jobs@) =~= before.push(job_of(tool@)));
        }
        i += 1;
    }
    proof {
        lemma_scheduled_once(all, decisions@, tools.len() as int);
    }
    jobs
}

/// How an install ended: well, or with the cause of its failure.
pub type OutcomeView = Result<(), Seq<char>>;

/// The outcomes as plain data.
pub open spec fn outcome_views(outcomes: Seq<Result<(), String>>) -> Seq<OutcomeView> {
    outcomes.map_values(
        |o: Result<(), String>|
            match o {
                Ok(_) => Ok(()),
                Err(cause) => Err(cause@),
            },
    )
}

/// The job at `j` ended well.  A job without an outcome did not.
pub open spec fn ended_well(outcomes: Seq<OutcomeView>, j: int) -> bool {
    0 <= j < outcomes.len() && outcomes[j] is Ok
}

/// Some job for the plugin and version ended well.
pub open spec fn succeeded(jobs: Seq<JobView>, outcomes: Seq<OutcomeView>, job: JobView) -> bool {
    exists|j: int| 0 <= j < jobs.len() && #[trigger] jobs[j] == job && ended_well(outcomes, j)
}

/// Whether a tool can be used once the installs have ended: one that was
/// present can, one that was to be installed can if its install ended well,
/// and no other can.
pub open spec fn usable_tool(
    tool: ToolView,
    decision: Decision,
    jobs: Seq<JobView>,
    outcomes: Seq<OutcomeView>,
) -> bool {
    match decision {
        Decision::Present => true,
        Decision::Install => succeeded(jobs, outcomes, job_of(tool)),
        _ => false,
    }
}

/// For each tool, whether it can be used once the installs have ended.
pub open spec fn usable(
    tools: Seq<ToolView>,
    decisions: Seq<Decision>,
    jobs: Seq<JobView>,
    outcomes: Seq<OutcomeView>,
) -> Seq<bool> {
    Seq::new(
        tools.len(),
        |i: int| usable_tool(tools[i], decision_at(decisions, i), jobs, outcomes),
    )
}

/// Why an install counts as failed when it reported no outcome.
pub const NO_OUTCOME: &'static str = "the install did not report how it ended";

/// Why a tool counts as failed when nobody could be asked about it.
pub const UNANSWERED: &'static str = "nobody could be asked whether to install it";

/// A version of a plugin that could not be installed, and why.
#[derive(Debug, Clone, PartialEq, Eq)]
pub struct InstallFailure {
    pub plugin: String,
    pub version: String,
    pub cause: String,
}

/// A failure as plain data.
pub struct FailureView {
    pub plugin: Seq<char>,
    pub version: Seq<char>,
    pub cause: Seq<char>,
}

impl View for InstallFailure {
    type V = FailureView;

    open spec fn view(&self) -> FailureView {
        FailureView { plugin: self.plugin@, version: self.version@, cause: self.cause@ }
    }
}

/// The failures as plain data.
pub open spec fn failure_views(failures: Seq<InstallFailure>) -> Seq<FailureView> {
    failures.map_values(|f: InstallFailure| f@)
}

/// The failures among the first `n` jobs, in the order of the jobs: every job
/// whose install failed, with the cause reported, and every job without an
/// outcome.
pub open spec fn install_failures(jobs: Seq<JobView>, outcomes: Seq<OutcomeView>, n: int) -> Seq<
    FailureView,
>
    decreases n,
{
    if n <= 0 || n > jobs.len() {
        Seq::empty()
    } else {
        let front = install_failures(jobs, outcomes, n - 1);
        let job = jobs[n - 1];
        if n - 1 < outcomes.len() {
            match outcomes[n - 1] {
                Ok(_) => front,
                Err(cause) => front.push(FailureView { plugin: job.0, version: job.1, cause }),
            }
        } else {
            front.push(FailureView { plugin: job.0, version: job.1, cause: NO_OUTCOME@ })
        }
    }
}

/// The failures among the first `n` tools that come from a question nobody
/// could be asked.
pub open spec fn prompt_failures(tools: Seq<ToolView>, decisions: Seq<Decision>, n: int) -> Seq<
    FailureView,
>
    decreases n,
{
    if n <= 0 || n > tools.len() {
        Seq::empty()
    } else {
        let front = prompt_failures(tools, decisions, n - 1);
        let tool = tools[n - 1];
        if decision_at(decisions, n - 1) == Decision::Fail {
            front.push(
                FailureView { plugin: tool.plugin, version: tool.version, cause: UNANSWERED@ },
            )
        } else {
            front
        }
    }
}

/// All failures: those of the installs, then those of the questions.
pub open spec fn failures(
    tools: Seq<ToolView>,
    decisions: Seq<Decision>,
    jobs: Seq<JobView>,
    outcomes: Seq<OutcomeView>,
) -> Seq<FailureView> {
    install_failures(jobs, outcomes, jobs.len() as int) + prompt_failures(
        tools,
        decisions,
        tools.len() as int,
    )
}

/// A toolset after the installs: the tools, and for each whether it can be
/// used.
#[derive(Debug, Clone, PartialEq, Eq)]
pub struct Provisioned {
    pub toolset: Toolset,
    pub usable: Vec<bool>,
}

/// What failed, all of it, and the toolset as it stands all the same.
#[derive(Debug, Clone, PartialEq, Eq)]
pub struct InstallError {
    pub failures: Vec<InstallFailure>,
    pub provisioned: Provisioned,
}

/// Tells whether some job for the plugin and version ended well.
fn job_succeeded(
    jobs: &Vec<InstallJob>,
    outcomes: &Vec<Result<(), String>>,
    plugin: &str,
    version: &str,
) -> (yes: bool)
    ensures
        yes == succeeded(job_views(jobs@), outcome_views(outcomes@), (plugin@, version@)),
{
    let ghost all = job_views(jobs@);
    let ghost ends = outcome_views(outcomes@);
    let mut j: usize = 0;
    while j < jobs.len() && j < outcomes.len()
        invariant
            j <= jobs.len(),
            all == job_views(jobs@),
            ends == outcome_views(outcomes@),
            forall|k: int| 0 <= k < j ==> !(all[k] == (plugin@, version@) && ended_well(ends, k)),
        decreases jobs.len() - j,
    {
        assert(all[j as int] == jobs[j as int]@);
        assert(ends[j as int] is Ok == outcomes[j as int] is Ok);
        let well = match &outcomes[j] {
            Ok(_) => true,
            Err(_) => false,
        };
        if well && str_eq(jobs[j].plugin.as_str(), plugin) && str_eq(
            jobs[j].version.as_str(),
            version,
        ) {
            return true;
        }
        j += 1;
    }
    false
}

/// Lists the jobs whose install failed or reported nothing.
fn collect_install_failures(jobs: &Vec<InstallJob>, outcomes: &Vec<Result<(), String>>) -> (out:
    Vec<InstallFailure>)
    ensures
        failure_views(out@) == install_failures(
            job_views(jobs@),
            outcome_views(outcomes@),
            jobs.len() as int,
        ),
{
    let ghost all = job_views(jobs@);
    let ghost ends = outcome_views(outcomes@);
    let mut out: Vec<InstallFailure> = Vec::new();
    let mut j: usize = 0;
    assert(failure_views(out@) =~= install_failures(all, ends, 0));
    while j < jobs.len()
        invariant
            j <= jobs.len(),
            all == job_views(jobs@),
            ends == outcome_views(outcomes@),
            failure_views(out@) == install_failures(all, ends, j as int),
        decreases jobs.len() - j,
    {
        let ghost before = failure_views(out@);
        let job = &jobs[j];
        assert(all[j as int] == job@);
        let cause: Option<String> = if j < outcomes.len() {
            assert(ends[j as int] == match outcomes[j as int] {
                Ok(_) => Ok::<(), Seq<char>>(()),
                Err(cause) => Err::<(), Seq<char>>(cause@),
            });
            match &outcomes[j] {
                Ok(_) => None,
                Err(cause) => Some(cause.clone()),
            }
        } else {
            Some(NO_OUTCOME.to_owned())
        };
        match cause {
            Some(cause) => {
                let failure = InstallFailure {
                    plugin: job.plugin.clone(),
                    version: job.version.clone(),
                    cause,
                };
                out.push(failure);
                assert(failure_views(out@) =~= before.push(failure@));
            },
            None => {},
        }
        j += 1;
    }
    out
}

/// Adds the tools that count as failed because nobody could be asked.
fn collect_prompt_failures(
    out: &mut Vec<InstallFailure>,
    tools: &Vec<ResolvedTool>,
    decisions: &Vec<Decision>,
)
    ensures
        failure_views(final(out)@) == failure_views(old(out)@) + prompt_failures(
            tool_views(tools@),
            decisions@,
            tools.len() as int,
        ),
{
    let ghost all = tool_views(tools@);
    let ghost start = failure_views(out@);
    let mut i: usize = 0;
    assert(start + prompt_failures(all, decisions@, 0) =~= start);
    while i < tools.len()
        invariant
            i <= tools.len(),
            all == tool_views(tools@),
            failure_views(out@) == start + prompt_failures(all, decisions@, i as int),
        decreases tools.len() - i,
    {
        let ghost before = failure_views(out@);
        let tool = &tools[i];
        assert(all[i as int] == tool@);
        let failed = if i < decisions.len() {
            match decisions[i] {
                Decision::Fail => true,
                _ => false,
            }
        } else {
            false
        };
        if failed {
            let failure = InstallFailure {
                plugin: tool.plugin.clone(),
                version: tool.version.clone(),
                cause: UNANSWERED.to_owned(),
            };
            out.push(failure);
            assert(failure_views(out@) =~= before.push(failure@));
            assert(failure_views(out@) =~= start + prompt_failures(all, decisions@, i + 1));
        }
        i += 1;
    }
}

/// Takes stock once every install has ended.  `outcomes` holds how the jobs
/// ended, in the order of `jobs`.  The toolset is handed back whole, with a
/// note for each tool whether it can be used; where anything failed, the
/// result is the error that lists every failure and carries the toolset.
pub fn settle(
    toolset: Toolset,
    decisions: &Vec<Decision>,
    jobs: &Vec<InstallJob>,
    outcomes: &Vec<Result<(), String>>,
) -> (out: Result<Provisioned, InstallError>)
    ensures
        match out {
            Ok(done) => {
                &&& failures(toolset@, decisions@, job_views(jobs@), outcome_views(outcomes@)).len()
                    == 0
                &&& done.toolset@ == toolset@
                &&& done.usable@ == usable(
                    toolset@,
                    decisions@,
                    job_views(jobs@),
                    outcome_views(outcomes@),
                )
            },
            Err(error) => {
                &&& failure_views(error.failures@) == failures(
                    toolset@,
                    decisions@,
                    job_views(jobs@),
                    outcome_views(outcomes@),
                )
                &&& error.failures.len() > 0
                &&& error.provisioned.toolset@ == toolset@
                &&& error.provisioned.usable@ == usable(
                    toolset@,
                    decisions@,
                    job_views(jobs@),
                    outcome_views(outcomes@),
                )
            },
        },
{
    let ghost all = toolset@;
    let ghost ends = outcome_views(outcomes@);
    let ghost work = job_views(jobs@);
    let mut flags: Vec<bool> = Vec::new();
    let mut i: usize = 0;
    while i < toolset.tools.len()
        invariant
            i <= toolset.tools.len(),
            all == toolset@,
            ends == outcome_views(outcomes@),
            work == job_views(jobs@),
            flags.len() == i,
            forall|k: int|
                0 <= k < i ==> flags[k] == usable_tool(
                    all[k],
                    decision_at(decisions@, k),
                    work,
                    ends,
                ),
        decreases toolset.tools.len() - i,
    {
        let tool = &toolset.tools[i];
        assert(all[i as int] == tool@);
        let flag = if i < decisions.len() {
            match decisions[i] {
                Decision::Present => true,
                Decision::Install => job_succeeded(
                    jobs,
                    outcomes,
                    tool.plugin.as_str(),
                    tool.version.as_str(),
                ),
                _ => false,
            }
        } else {
            false
        };
        flags.push(flag);
        i += 1;
    }
    assert(flags@ =~= usable(all, decisions@, work, ends));
    let mut failed = collect_install_failures(jobs, outcomes);
    collect_prompt_failures(&mut failed, &toolset.tools, decisions);
    let provisioned = Provisioned { toolset, usable: flags };
    if failed.len() == 0 {
        Ok(provisioned)
    } else {
        Err(InstallError { failures: failed, provisioned })
    }
}

/// The plugin and version that a failure is about.
pub open spec fn failed_job(failure: FailureView) -> JobView {
    (failure.plugin, failure.version)
}

/// Some failure among those of the first `n` jobs is about `job`.
pub open spec fn reported(jobs: Seq<JobView>, outcomes: Seq<OutcomeView>, n: int, job: JobView)
    -> bool {
    exists|k: int|
        0 <= k < install_failures(jobs, outcomes, n).len() && failed_job(
            #[trigger] install_failures(jobs, outcomes, n)[k],
        ) == job
}

/// The failures among the first `n` jobs are about exactly those of them
/// that did not end well.
pub proof fn lemma_reported(jobs: Seq<JobView>, outcomes: Seq<OutcomeView>, n: int, job: JobView)
    requires
        0 <= n <= jobs.len(),
    ensures
        reported(jobs, outcomes, n, job) <==> exists|j: int|
            0 <= j < n && #[trigger] jobs[j] == job && !ended_well(outcomes, j),
    decreases n,
{
    if n > 0 {
        lemma_reported(jobs, outcomes, n - 1, job);
        let front = install_failures(jobs, outcomes, n - 1);
        let all = install_failures(jobs, outcomes, n);
        if reported(jobs, outcomes, n, job) {
            let k = choose|k: int| 0 <= k < all.len() && failed_job(#[trigger] all[k]) == job;
            if k < front.len() {
                assert(failed_job(front[k]) == job);
                assert(reported(jobs, outcomes, n - 1, job));
                let j = choose|j: int|
                    0 <= j < n - 1 && #[trigger] jobs[j] == job && !ended_well(outcomes, j);
                assert(jobs[j] == job);
            } else {
                assert(jobs[n - 1] == job);
            }
        }
        if exists|j: int| 0 <= j < n && #[trigger] jobs[j] == job && !ended_well(outcomes, j) {
            let j = choose|j: int|
                0 <= j < n && #[trigger] jobs[j] == job && !ended_well(outcomes, j);
            if j < n - 1 {
                assert(reported(jobs, outcomes, n - 1, job));
                let k = choose|k: int|
                    0 <= k < front.len() && failed_job(#[trigger] front[k]) == job;
                assert(failed_job(all[k]) == job);
            } else {
                assert(failed_job(all[all.len() - 1]) == job);
            }
        }
    }
}

/// Partial-failure isolation: of jobs that are all different, one that ended
/// well has succeeded and is in no failure, whatever became of the others;
/// and one that did not end well has not succeeded and is in a failure.
pub proof fn lemma_failure_isolation(jobs: Seq<JobView>, outcomes: Seq<OutcomeView>, j: int)
    requires
        distinct(jobs),
        0 <= j < jobs.len(),
    ensures
        ended_well(outcomes, j) ==> succeeded(jobs, outcomes, jobs[j]) && !reported(
            jobs,
            outcomes,
            jobs.len() as int,
            jobs[j],
        ),
        !ended_well(outcomes, j) ==> !succeeded(jobs, outcomes, jobs[j]) && reported(
            jobs,
            outcomes,
            jobs.len() as int,
            jobs[j],
        ),
{
    lemma_reported(jobs, outcomes, jobs.len() as int, jobs[j]);
}

/// The decisions install nothing and fail nothing.
pub open spec fn all_quiet(decisions: Seq<Decision>) -> bool {
    forall|i: int|
        0 <= i < decisions.len() ==> #[trigger] decisions[i] != Decision::Install && decisions[i]
            != Decision::Fail
}

/// Where nothing is to be installed and no question went unanswered, nothing
/// is scheduled and nothing fails.
pub proof fn lemma_quiet(
    tools: Seq<ToolView>,
    decisions: Seq<Decision>,
    outcomes: Seq<OutcomeView>,
    n: int,
)
    requires
        all_quiet(decisions),
        0 <= n <= tools.len(),
    ensures
        scheduled(tools, decisions, n).len() == 0,
        prompt_failures(tools, decisions, n).len() == 0,
        install_failures(scheduled(tools, decisions, n), outcomes, 0).len() == 0,
    decreases n,
{
    if n > 0 {
        lemma_quiet(tools, decisions, outcomes, n - 1);
    }
}

/// Every decision is that the tool is present or gets installed.
pub open spec fn all_eager(decisions: Seq<Decision>) -> bool {
    forall|i: int|
        0 <= i < decisions.len() ==> #[trigger] decisions[i] == Decision::Present || decisions[i]
            == Decision::Install
}

/// Where every tool is present or gets installed, and nothing fails, every
/// tool can be used in the end.
pub proof fn lemma_eager(tools: Seq<ToolView>, decisions: Seq<Decision>, outcomes: Seq<OutcomeView>)
    requires
        all_eager(decisions),
        decisions.len() == tools.len(),
        failures(
            tools,
            decisions,
            scheduled(tools, decisions, tools.len() as int),
            outcomes,
        ).len() == 0,
    ensures
        forall|i: int|
            0 <= i < tools.len() ==> #[trigger] usable(
                tools,
                decisions,
                scheduled(tools, decisions, tools.len() as int),
                outcomes,
            )[i],
{
    let jobs = scheduled(tools, decisions, tools.len() as int);
    lemma_scheduled_once(tools, decisions, tools.len() as int);
    assert forall|i: int| 0 <= i < tools.len() implies #[trigger] usable(
        tools,
        decisions,
        jobs,
        outcomes,
    )[i] by {
        if decisions[i] == Decision::Install {
            let job = job_of(tools[i]);
            assert(asked_for(tools, decisions, tools.len() as int, job));
            assert(jobs.contains(job));
            let j = choose|j: int| 0 <= j < jobs.len() && jobs[j] == job;
            lemma_reported(jobs, outcomes, jobs.len() as int, job);
            assert(install_failures(jobs, outcomes, jobs.len() as int).len() == 0);
            assert(!reported(jobs, outcomes, jobs.len() as int, job));
            assert(ended_well(outcomes, j));
        }
    }
}

/// Sees to it that the tools of a toolset are installed, as far as the
/// policy allows.  For each tool that is not installed the policy decides:
/// install it, ask, warn, or pass over it in silence.  What is to be
/// installed is installed once per plugin and version, at most `parallelism`
/// at a time, and all installs have ended when this returns.  The toolset
/// comes back whole, in the result or in the error, with a note for each
/// tool whether it can be used.  Under the policies that install nothing and
/// ask nothing there is no error; under the policy that installs whatever is
/// missing, success means that every tool can be used.
pub fn ensure_installed<A: PluginAdapter, T: Terminal>(
    toolset: Toolset,
    policy: MissingRuntimeBehavior,
    parallelism: usize,
    adapter: &mut A,
    terminal: &mut T,
) -> (out: Result<Provisioned, InstallError>)
    ensures
        match out {
            Ok(done) => done.toolset@ == toolset@ && done.usable.len() == toolset@.len(),
            Err(error) => error.provisioned.toolset@ == toolset@
                && error.provisioned.usable.len() == toolset@.len() && error.failures.len() > 0,
        },
        policy == MissingRuntimeBehavior::Warn || policy == MissingRuntimeBehavior::Ignore
            ==> out is Ok,
        policy == MissingRuntimeBehavior::AutoInstall && out is Ok ==> forall|i: int|
            0 <= i < out->Ok_0.usable.len() ==> #[trigger] out->Ok_0.usable[i],
{
    let mut decisions: Vec<Decision> = Vec::new();
    let mut i: usize = 0;
    while i < toolset.tools.len()
        invariant
            i <= toolset.tools.len(),
            decisions.len() == i,
            policy == MissingRuntimeBehavior::Warn || policy == MissingRuntimeBehavior::Ignore
                ==> all_quiet(decisions@),
            policy == MissingRuntimeBehavior::AutoInstall ==> all_eager(decisions@),
        decreases toolset.tools.len() - i,
    {
        let tool = &toolset.tools[i];
        let versions = adapter.list_installed_versions(tool.plugin.as_str());
        let installed = contains_version(&versions, tool.version.as_str());
        let answer = match policy {
            MissingRuntimeBehavior::Prompt => if installed {
                PromptAnswer::Unanswerable
            } else {
                terminal.confirm(tool.plugin.as_str(), tool.version.as_str())
            },
            _ => PromptAnswer::Unanswerable,
        };
        let decided = decide(policy, installed, answer);
        match decided {
            Decision::Warn => terminal.warn_missing(tool.plugin.as_str(), tool.version.as_str()),
            _ => {},
        }
        decisions.push(decided);
        i += 1;
    }
    let jobs = schedule(&toolset.tools, &decisions);
    let outcomes = if jobs.len() > 0 {
        let workers: usize = if parallelism == 0 {
            1
        } else {
            parallelism
        };
        adapter.install_all(&jobs, workers)
    } else {
        Vec::new()
    };
    proof {
        if policy == MissingRuntimeBehavior::Warn || policy == MissingRuntimeBehavior::Ignore {
            lemma_quiet(
                toolset@,
                decisions@,
                outcome_views(outcomes@),
                toolset@.len() as int,
            );
        }
        if policy == MissingRuntimeBehavior::AutoInstall && failures(
            toolset@,
            decisions@,
            job_views(jobs@),
            outcome_views(outcomes@),
        ).len() == 0 {
            lemma_eager(toolset@, decisions@, outcome_views(outcomes@));
        }
    }
    settle(toolset, &decisions, &jobs, &outcomes)
}

} // verus!
