use rtx::env::{assemble, build, ToolEnv};
use rtx::install::{
    contains_version, decide, ensure_installed, schedule, settle, Decision, InstallFailure,
    InstallJob, PromptAnswer, Provisioned, NO_OUTCOME, UNANSWERED,
};
use rtx::plugin::{PluginAdapter, Terminal};
use rtx::settings::MissingRuntimeBehavior;
use rtx::toolset::{PrecedenceSource, ResolvedTool, Toolset};

fn tool(plugin: &str, version: &str) -> ResolvedTool {
    ResolvedTool {
        plugin: plugin.to_string(),
        version: version.to_string(),
        source: PrecedenceSource::ProjectConfig,
    }
}

fn job(plugin: &str, version: &str) -> InstallJob {
    InstallJob { plugin: plugin.to_string(), version: version.to_string() }
}

fn failure(plugin: &str, version: &str, cause: &str) -> InstallFailure {
    InstallFailure {
        plugin: plugin.to_string(),
        version: version.to_string(),
        cause: cause.to_string(),
    }
}

/// An adapter that keeps its installs in memory and counts what it is asked.
struct Shelf {
    installed: Vec<(String, String)>,
    broken: Vec<(String, String)>,
    install_calls: Vec<(String, String)>,
    widest: usize,
    asked_paths: Vec<String>,
}

impl Shelf {
    fn new(installed: &[(&str, &str)], broken: &[(&str, &str)]) -> Shelf {
        let own = |list: &[(&str, &str)]| -> Vec<(String, String)> {
            list.iter().map(|(p, v)| (p.to_string(), v.to_string())).collect()
        };
        Shelf {
            installed: own(installed),
            broken: own(broken),
            install_calls: vec![],
            widest: 0,
            asked_paths: vec![],
        }
    }
}

impl PluginAdapter for Shelf {
    fn list_remote_versions(&mut self, _plugin: &str) -> Vec<String> {
        vec![]
    }

    fn list_installed_versions(&mut self, plugin: &str) -> Vec<String> {
        self.installed.iter().filter(|(p, _)| p == plugin).map(|(_, v)| v.clone()).collect()
    }

    fn install(&mut self, plugin: &str, version: &str) -> Result<(), String> {
        let pair = (plugin.to_string(), version.to_string());
        self.install_calls.push(pair.clone());
        if self.broken.contains(&pair) {
            Err(format!("cannot fetch {plugin} {version}"))
        } else {
            self.installed.push(pair);
            Ok(())
        }
    }

    fn install_all(&mut self, jobs: &Vec<InstallJob>, parallelism: usize) -> Vec<Result<(), String>> {
        self.widest = parallelism;
        jobs.iter().map(|j| self.install(&j.plugin, &j.version)).collect()
    }

    fn bin_paths(&mut self, plugin: &str, version: &str) -> Vec<String> {
        self.asked_paths.push(plugin.to_string());
        vec![format!("/installs/{plugin}/{version}/bin")]
    }

    fn exec_env(&mut self, plugin: &str, version: &str) -> Vec<(String, String)> {
        vec![(format!("{}_HOME", plugin.to_uppercase()), format!("/installs/{plugin}/{version}"))]
    }
}

struct Desk {
    answer: PromptAnswer,
    asked: Vec<String>,
    warned: Vec<String>,
}

impl Desk {
    fn new(answer: PromptAnswer) -> Desk {
        Desk { answer, asked: vec![], warned: vec![] }
    }
}

impl Terminal for Desk {
    fn confirm(&mut self, plugin: &str, version: &str) -> PromptAnswer {
        self.asked.push(format!("{plugin}@{version}"));
        self.answer
    }

    fn warn_missing(&mut self, plugin: &str, version: &str) {
        self.warned.push(format!("{plugin}@{version}"));
    }
}

#[test]
fn the_policy_decides() {
    let policies = [
        MissingRuntimeBehavior::AutoInstall,
        MissingRuntimeBehavior::Prompt,
        MissingRuntimeBehavior::Warn,
        MissingRuntimeBehavior::Ignore,
    ];
    let answers = [PromptAnswer::Confirmed, PromptAnswer::Declined, PromptAnswer::Unanswerable];
    for policy in policies {
        for answer in answers {
            assert_eq!(decide(policy, true, answer), Decision::Present);
        }
    }
    for answer in answers {
        assert_eq!(decide(MissingRuntimeBehavior::AutoInstall, false, answer), Decision::Install);
        assert_eq!(decide(MissingRuntimeBehavior::Warn, false, answer), Decision::Warn);
        assert_eq!(decide(MissingRuntimeBehavior::Ignore, false, answer), Decision::Skip);
    }
    let prompt = MissingRuntimeBehavior::Prompt;
    assert_eq!(decide(prompt, false, PromptAnswer::Confirmed), Decision::Install);
    assert_eq!(decide(prompt, false, PromptAnswer::Declined), Decision::Warn);
    assert_eq!(decide(prompt, false, PromptAnswer::Unanswerable), Decision::Fail);
}

#[test]
fn versions_are_looked_up() {
    let installed = vec!["18.0.0".to_string(), "20.10.0".to_string()];
    assert!(contains_version(&installed, "20.10.0"));
    assert!(!contains_version(&installed, "20"));
    assert!(!contains_version(&vec![], "20"));
}

#[test]
fn a_version_asked_for_twice_is_scheduled_once() {
    let tools = vec![
        tool("python", "3.11"),
        tool("node", "20"),
        tool("python", "3.11"),
        tool("python", "3.12"),
        tool("ruby", "3.2"),
    ];
    let decisions = vec![
        Decision::Install,
        Decision::Install,
        Decision::Install,
        Decision::Install,
        Decision::Present,
    ];
    let jobs = schedule(&tools, &decisions);
    assert_eq!(jobs, vec![job("python", "3.11"), job("node", "20"), job("python", "3.12")]);
}

#[test]
fn a_version_asked_for_twice_is_installed_once() {
    let toolset = Toolset { tools: vec![tool("python", "3.11"), tool("python", "3.11")] };
    let mut shelf = Shelf::new(&[], &[]);
    let mut desk = Desk::new(PromptAnswer::Unanswerable);
    let done =
        ensure_installed(toolset, MissingRuntimeBehavior::AutoInstall, 4, &mut shelf, &mut desk)
            .unwrap();
    assert_eq!(shelf.install_calls, vec![("python".to_string(), "3.11".to_string())]);
    assert_eq!(done.usable, vec![true, true]);
}

#[test]
fn only_what_is_to_be_installed_is_scheduled() {
    let tools = vec![tool("a", "1"), tool("b", "1"), tool("c", "1"), tool("d", "1"), tool("e", "1")];
    let decisions =
        vec![Decision::Present, Decision::Warn, Decision::Skip, Decision::Fail, Decision::Install];
    assert_eq!(schedule(&tools, &decisions), vec![job("e", "1")]);
    assert_eq!(schedule(&tools, &vec![]), vec![]);
    assert_eq!(schedule(&vec![], &decisions), vec![]);
}

#[test]
fn one_failure_leaves_the_others_alone() {
    let toolset =
        Toolset { tools: vec![tool("node", "20"), tool("python", "3.11"), tool("ruby", "3.2")] };
    let mut shelf = Shelf::new(&[], &[("python", "3.11")]);
    let mut desk = Desk::new(PromptAnswer::Unanswerable);
    let error = ensure_installed(
        toolset.clone(),
        MissingRuntimeBehavior::AutoInstall,
        2,
        &mut shelf,
        &mut desk,
    )
    .unwrap_err();
    assert_eq!(error.failures, vec![failure("python", "3.11", "cannot fetch python 3.11")]);
    assert_eq!(error.provisioned.toolset, toolset);
    assert_eq!(error.provisioned.usable, vec![true, false, true]);
    assert_eq!(shelf.install_calls.len(), 3);
    assert_eq!(shelf.widest, 2);

    let patch = build(&error.provisioned, &mut shelf);
    assert_eq!(patch.path_prepend, vec!["/installs/node/20/bin", "/installs/ruby/3.2/bin"]);
    let vars: Vec<(&str, &str)> = patch.vars.iter().map(|(k, v)| (k.as_str(), v.as_str())).collect();
    assert_eq!(vars, vec![("NODE_HOME", "/installs/node/20"), ("RUBY_HOME", "/installs/ruby/3.2")]);
    assert_eq!(shelf.asked_paths, vec!["node", "ruby"]);
}

#[test]
fn what_is_ignored_is_left_out_without_an_error() {
    let toolset = Toolset { tools: vec![tool("ruby", "3.2")] };
    let mut shelf = Shelf::new(&[], &[]);
    let mut desk = Desk::new(PromptAnswer::Confirmed);
    let done = ensure_installed(
        toolset.clone(),
        MissingRuntimeBehavior::Ignore,
        1,
        &mut shelf,
        &mut desk,
    )
    .unwrap();
    assert_eq!(done.toolset, toolset);
    assert_eq!(done.usable, vec![false]);
    assert!(shelf.install_calls.is_empty());
    assert!(desk.asked.is_empty());
    assert!(desk.warned.is_empty());

    let patch = build(&done, &mut shelf);
    assert!(patch.path_prepend.is_empty());
    assert!(patch.vars.is_empty());
    assert!(shelf.asked_paths.is_empty());
}

#[test]
fn what_is_warned_of_is_left_out_too() {
    let toolset = Toolset { tools: vec![tool("ruby", "3.2"), tool("node", "20")] };
    let mut shelf = Shelf::new(&[("node", "20")], &[]);
    let mut desk = Desk::new(PromptAnswer::Confirmed);
    let done =
        ensure_installed(toolset, MissingRuntimeBehavior::Warn, 1, &mut shelf, &mut desk).unwrap();
    assert_eq!(done.usable, vec![false, true]);
    assert_eq!(desk.warned, vec!["ruby@3.2"]);
    assert!(shelf.install_calls.is_empty());
}

#[test]
fn a_prompt_is_answered() {
    let toolset = Toolset { tools: vec![tool("ruby", "3.2"), tool("node", "20")] };

    let mut shelf = Shelf::new(&[("node", "20")], &[]);
    let mut desk = Desk::new(PromptAnswer::Confirmed);
    let done = ensure_installed(
        toolset.clone(),
        MissingRuntimeBehavior::Prompt,
        1,
        &mut shelf,
        &mut desk,
    )
    .unwrap();
    assert_eq!(desk.asked, vec!["ruby@3.2"]);
    assert_eq!(done.usable, vec![true, true]);

    let mut shelf = Shelf::new(&[("node", "20")], &[]);
    let mut desk = Desk::new(PromptAnswer::Declined);
    let done = ensure_installed(
        toolset.clone(),
        MissingRuntimeBehavior::Prompt,
        1,
        &mut shelf,
        &mut desk,
    )
    .unwrap();
    assert_eq!(done.usable, vec![false, true]);
    assert_eq!(desk.warned, vec!["ruby@3.2"]);
    assert!(shelf.install_calls.is_empty());

    let mut shelf = Shelf::new(&[("node", "20")], &[]);
    let mut desk = Desk::new(PromptAnswer::Unanswerable);
    let error =
        ensure_installed(toolset, MissingRuntimeBehavior::Prompt, 1, &mut shelf, &mut desk)
            .unwrap_err();
    assert_eq!(error.failures, vec![failure("ruby", "3.2", UNANSWERED)]);
    assert_eq!(error.provisioned.usable, vec![false, true]);
    assert!(shelf.install_calls.is_empty());
}

#[test]
fn no_workers_means_one() {
    let toolset = Toolset { tools: vec![tool("ruby", "3.2")] };
    let mut shelf = Shelf::new(&[], &[]);
    let mut desk = Desk::new(PromptAnswer::Unanswerable);
    ensure_installed(toolset, MissingRuntimeBehavior::AutoInstall, 0, &mut shelf, &mut desk).unwrap();
    assert_eq!(shelf.widest, 1);
}

#[test]
fn stock_is_taken() {
    let toolset = Toolset {
        tools: vec![tool("a", "1"), tool("b", "1"), tool("c", "1"), tool("d", "1"), tool("e", "1")],
    };
    let decisions = vec![
        Decision::Present,
        Decision::Install,
        Decision::Install,
        Decision::Fail,
        Decision::Install,
    ];
    let jobs = schedule(&toolset.tools, &decisions);
    let outcomes = vec![Ok(()), Err("disk full".to_string())];
    let error = settle(toolset.clone(), &decisions, &jobs, &outcomes).unwrap_err();
    assert_eq!(
        error.failures,
        vec![
            failure("c", "1", "disk full"),
            failure("e", "1", NO_OUTCOME),
            failure("d", "1", UNANSWERED),
        ]
    );
    assert_eq!(error.provisioned.usable, vec![true, true, false, false, false]);
    assert_eq!(error.provisioned.toolset, toolset);

    let all_well = vec![Ok(()), Ok(()), Ok(())];
    let quiet = vec![Decision::Present, Decision::Install, Decision::Install, Decision::Skip, Decision::Install];
    let jobs = schedule(&toolset.tools, &quiet);
    let done = settle(toolset, &quiet, &jobs, &all_well).unwrap();
    assert_eq!(done.usable, vec![true, true, true, false, true]);
}

#[test]
fn contributions_are_put_together_in_order() {
    let contributions = vec![
        ToolEnv {
            bin_paths: vec!["/n/bin".to_string(), "/n/sbin".to_string()],
            env: vec![("HOME_OF".to_string(), "node".to_string()), ("N".to_string(), "1".to_string())],
        },
        ToolEnv {
            bin_paths: vec!["/skipped".to_string()],
            env: vec![("S".to_string(), "1".to_string())],
        },
        ToolEnv {
            bin_paths: vec!["/r/bin".to_string(), "/odd:dir".to_string()],
            env: vec![
                ("HOME_OF".to_string(), "ruby".to_string()),
                ("PATH".to_string(), "/evil".to_string()),
                ("__RTX_DIFF".to_string(), "x".to_string()),
                ("R".to_string(), "1".to_string()),
            ],
        },
    ];
    let patch = assemble(&vec![true, false, true], &contributions);
    assert_eq!(patch.path_prepend, vec!["/n/bin", "/n/sbin", "/r/bin"]);
    let vars: Vec<(&str, &str)> = patch.vars.iter().map(|(k, v)| (k.as_str(), v.as_str())).collect();
    assert_eq!(vars, vec![("HOME_OF", "ruby"), ("N", "1"), ("R", "1")]);

    let short = assemble(&vec![true], &contributions);
    assert_eq!(short.path_prepend, vec!["/n/bin", "/n/sbin"]);
    let none = assemble(&vec![], &contributions);
    assert!(none.path_prepend.is_empty() && none.vars.is_empty());
}

#[test]
fn the_builder_asks_only_about_usable_tools() {
    let provisioned = Provisioned {
        toolset: Toolset { tools: vec![tool("node", "20"), tool("ruby", "3.2")] },
        usable: vec![false, true],
    };
    let mut shelf = Shelf::new(&[], &[]);
    let patch = build(&provisioned, &mut shelf);
    assert_eq!(patch.path_prepend, vec!["/installs/ruby/3.2/bin"]);
    assert_eq!(shelf.asked_paths, vec!["ruby"]);
}
