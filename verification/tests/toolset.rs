use indexmap::IndexMap;
use rtx::requests::{
    collect, parse_args, parse_requirement, parse_version_file, parse_version_files, ParseFailure,
};
use rtx::toolset::{
    find_plugin, resolve, resolve_version, PrecedenceSource, ResolvedTool, Toolset,
    VersionRequirement, VersionSpec,
};

type Aliases = IndexMap<String, IndexMap<String, String>>;

fn spec(plugin: &str, requirement: VersionRequirement, source: PrecedenceSource) -> VersionSpec {
    VersionSpec { plugin: plugin.to_string(), requirement, source }
}

fn exact(plugin: &str, version: &str, source: PrecedenceSource) -> VersionSpec {
    spec(plugin, VersionRequirement::Exact(version.to_string()), source)
}

fn tool(plugin: &str, version: &str, source: PrecedenceSource) -> ResolvedTool {
    ResolvedTool { plugin: plugin.to_string(), version: version.to_string(), source }
}

fn node_aliases() -> Aliases {
    let mut node: IndexMap<String, String> = IndexMap::new();
    node.insert("lts".to_string(), "20.10.0".to_string());
    let mut aliases: Aliases = IndexMap::new();
    aliases.insert("node".to_string(), node);
    aliases
}

fn permutations(items: &[VersionSpec]) -> Vec<Vec<VersionSpec>> {
    if items.len() <= 1 {
        return vec![items.to_vec()];
    }
    let mut all = Vec::new();
    for i in 0..items.len() {
        let mut rest = items.to_vec();
        let head = rest.remove(i);
        for mut tail in permutations(&rest) {
            tail.insert(0, head.clone());
            all.push(tail);
        }
    }
    all
}

#[test]
fn the_command_line_wins_in_any_order() {
    let requests = vec![
        exact("node", "20", PrecedenceSource::Cli),
        exact("node", "18", PrecedenceSource::ProjectConfig),
        exact("node", "16", PrecedenceSource::LegacyFile),
    ];
    let aliases: Aliases = IndexMap::new();
    for order in permutations(&requests) {
        let toolset = resolve(&order, &aliases);
        assert_eq!(toolset.tools, vec![tool("node", "20", PrecedenceSource::Cli)]);
    }
}

#[test]
fn the_later_of_equals_wins() {
    let requests = vec![
        exact("node", "16", PrecedenceSource::LegacyFile),
        exact("node", "18", PrecedenceSource::LegacyFile),
    ];
    let toolset = resolve(&requests, &IndexMap::new());
    assert_eq!(toolset.tools, vec![tool("node", "18", PrecedenceSource::LegacyFile)]);
}

#[test]
fn plugins_keep_the_order_in_which_they_first_appear() {
    let requests = vec![
        exact("python", "3.10", PrecedenceSource::GlobalConfig),
        exact("node", "16", PrecedenceSource::LegacyFile),
        exact("ruby", "3.2", PrecedenceSource::ProjectConfig),
        exact("python", "3.11", PrecedenceSource::Cli),
        exact("node", "14", PrecedenceSource::GlobalConfig),
    ];
    let toolset = resolve(&requests, &IndexMap::new());
    assert_eq!(
        toolset.tools,
        vec![
            tool("python", "3.11", PrecedenceSource::Cli),
            tool("node", "16", PrecedenceSource::LegacyFile),
            tool("ruby", "3.2", PrecedenceSource::ProjectConfig),
        ]
    );
}

#[test]
fn resolving_twice_gives_the_same() {
    let requests = vec![
        exact("python", "3.10", PrecedenceSource::GlobalConfig),
        spec("node", VersionRequirement::Alias("lts".to_string()), PrecedenceSource::Cli),
        exact("python", "3.11", PrecedenceSource::ProjectConfig),
    ];
    let aliases = node_aliases();
    let first = resolve(&requests, &aliases);
    let second = resolve(&requests.clone(), &aliases.clone());
    assert_eq!(first, second);
}

#[test]
fn no_requests_no_tools() {
    let toolset = resolve(&vec![], &node_aliases());
    assert!(toolset.tools.is_empty());
}

#[test]
fn an_alias_gives_way_to_what_it_stands_for() {
    let requests =
        vec![spec("node", VersionRequirement::Alias("lts".to_string()), PrecedenceSource::Cli)];
    let toolset = resolve(&requests, &node_aliases());
    assert_eq!(toolset.tools, vec![tool("node", "20.10.0", PrecedenceSource::Cli)]);
}

#[test]
fn an_alias_that_stands_for_nothing_is_kept() {
    let aliases = node_aliases();
    let unknown = spec("node", VersionRequirement::Alias("next".to_string()), PrecedenceSource::Cli);
    assert_eq!(resolve_version(&unknown, &aliases), "next");
    let other = spec("ruby", VersionRequirement::Alias("lts".to_string()), PrecedenceSource::Cli);
    assert_eq!(resolve_version(&other, &aliases), "lts");
    let toolset = resolve(&vec![unknown, other], &aliases);
    assert_eq!(toolset.tools.len(), 2);
}

#[test]
fn requirements_are_written_out() {
    let aliases = node_aliases();
    let source = PrecedenceSource::ProjectConfig;
    assert_eq!(resolve_version(&exact("node", "lts", source), &aliases), "lts");
    assert_eq!(
        resolve_version(&spec("node", VersionRequirement::Prefix("20".to_string()), source), &aliases),
        "prefix:20"
    );
    assert_eq!(resolve_version(&spec("node", VersionRequirement::Latest, source), &aliases), "latest");
    assert_eq!(resolve_version(&spec("node", VersionRequirement::System, source), &aliases), "system");
}

#[test]
fn sources_are_ranked() {
    assert_eq!(PrecedenceSource::GlobalConfig.precedence(), 0);
    assert_eq!(PrecedenceSource::LegacyFile.precedence(), 1);
    assert_eq!(PrecedenceSource::ProjectConfig.precedence(), 2);
    assert_eq!(PrecedenceSource::Cli.precedence(), 3);
}

#[test]
fn a_toolset_is_asked_for_a_plugin() {
    let requests = vec![
        exact("node", "16", PrecedenceSource::LegacyFile),
        exact("ruby", "3.2", PrecedenceSource::ProjectConfig),
        exact("node", "20", PrecedenceSource::Cli),
    ];
    let toolset = resolve(&requests, &IndexMap::new());
    assert_eq!(toolset.get("node"), Some(&tool("node", "20", PrecedenceSource::Cli)));
    assert_eq!(toolset.get("ruby"), Some(&tool("ruby", "3.2", PrecedenceSource::ProjectConfig)));
    assert_eq!(toolset.get("python"), None);
    assert_eq!(Toolset::new().get("node"), None);
    assert!(Toolset::new().tools.is_empty());
}

#[test]
fn tools_are_found_by_plugin() {
    let tools = vec![
        tool("node", "18", PrecedenceSource::Cli),
        tool("ruby", "3.2", PrecedenceSource::Cli),
    ];
    assert_eq!(find_plugin(&tools, "ruby"), Some(1));
    assert_eq!(find_plugin(&tools, "node"), Some(0));
    assert_eq!(find_plugin(&tools, "python"), None);
}

#[test]
fn a_child_directory_adds_its_version_file() {
    // The parent holds no version file, the child holds one.
    let from_child = parse_version_files(&vec!["node 18\n".to_string()], PrecedenceSource::LegacyFile)
        .unwrap();
    let toolset = resolve(&from_child, &IndexMap::new());
    assert_eq!(toolset.tools, vec![tool("node", "18", PrecedenceSource::LegacyFile)]);

    let from_parent = parse_version_files(&vec![], PrecedenceSource::LegacyFile).unwrap();
    let toolset = resolve(&from_parent, &IndexMap::new());
    assert!(toolset.tools.is_empty());
}

#[test]
fn the_inner_version_file_wins() {
    let files = vec!["node 16\nruby 3.1\n".to_string(), "node 18\n".to_string()];
    let requests = parse_version_files(&files, PrecedenceSource::LegacyFile).unwrap();
    let toolset = resolve(&requests, &IndexMap::new());
    assert_eq!(
        toolset.tools,
        vec![
            tool("node", "18", PrecedenceSource::LegacyFile),
            tool("ruby", "3.1", PrecedenceSource::LegacyFile),
        ]
    );
}

#[test]
fn requests_are_read_from_the_command_line() {
    let source = PrecedenceSource::Cli;
    assert_eq!(VersionSpec::parse("node@20", source), Ok(exact("node", "20", source)));
    assert_eq!(
        VersionSpec::parse("node", source),
        Ok(spec("node", VersionRequirement::Latest, source))
    );
    assert_eq!(
        VersionSpec::parse("node@latest", source),
        Ok(spec("node", VersionRequirement::Latest, source))
    );
    assert_eq!(
        VersionSpec::parse("node@system", source),
        Ok(spec("node", VersionRequirement::System, source))
    );
    assert_eq!(
        VersionSpec::parse("node@lts", source),
        Ok(spec("node", VersionRequirement::Alias("lts".to_string()), source))
    );
    assert_eq!(
        VersionSpec::parse("node@prefix:20", source),
        Ok(spec("node", VersionRequirement::Prefix("20".to_string()), source))
    );
    assert_eq!(
        VersionSpec::parse("python@3.11.4", source),
        Ok(exact("python", "3.11.4", source))
    );
    assert_eq!(
        VersionSpec::parse("a@b@c", source),
        Ok(spec("a", VersionRequirement::Alias("b@c".to_string()), source))
    );
    assert_eq!(VersionSpec::parse(" node @ 20 ", source), Ok(exact("node", "20", source)));
}

#[test]
fn what_is_no_request_is_refused() {
    let source = PrecedenceSource::Cli;
    assert_eq!(VersionSpec::parse("", source), Err(ParseFailure::EmptyPlugin));
    assert_eq!(VersionSpec::parse("@20", source), Err(ParseFailure::EmptyPlugin));
    assert_eq!(VersionSpec::parse("  @20", source), Err(ParseFailure::EmptyPlugin));
    assert_eq!(VersionSpec::parse("node@", source), Err(ParseFailure::EmptyVersion));
    assert_eq!(VersionSpec::parse("node@  ", source), Err(ParseFailure::EmptyVersion));
    assert_eq!(VersionSpec::parse("node@prefix:", source), Err(ParseFailure::EmptyVersion));
}

#[test]
fn requirements_are_told_apart() {
    assert_eq!(parse_requirement(""), None);
    assert_eq!(parse_requirement("latest"), Some(VersionRequirement::Latest));
    assert_eq!(parse_requirement("latest1"), Some(VersionRequirement::Alias("latest1".to_string())));
    assert_eq!(parse_requirement("system"), Some(VersionRequirement::System));
    assert_eq!(parse_requirement("prefix:"), None);
    assert_eq!(parse_requirement("prefix:1.2"), Some(VersionRequirement::Prefix("1.2".to_string())));
    assert_eq!(parse_requirement("prefix"), Some(VersionRequirement::Alias("prefix".to_string())));
    assert_eq!(parse_requirement("0"), Some(VersionRequirement::Exact("0".to_string())));
    assert_eq!(parse_requirement("9.1"), Some(VersionRequirement::Exact("9.1".to_string())));
    assert_eq!(parse_requirement("v9"), Some(VersionRequirement::Alias("v9".to_string())));
    assert_eq!(parse_requirement("/"), Some(VersionRequirement::Alias("/".to_string())));
    assert_eq!(parse_requirement(":"), Some(VersionRequirement::Alias(":".to_string())));
}

#[test]
fn the_first_bad_argument_is_the_error() {
    let args = vec!["node@20".to_string(), "@1".to_string(), "ruby@".to_string()];
    let error = parse_args(&args).unwrap_err();
    assert_eq!(error.source, PrecedenceSource::Cli);
    assert_eq!(error.file, 0);
    assert_eq!(error.line, 1);
    assert_eq!(error.text, "@1");
    assert_eq!(error.failure, ParseFailure::EmptyPlugin);

    let good = parse_args(&vec!["node@20".to_string(), "ruby".to_string()]).unwrap();
    assert_eq!(
        good,
        vec![
            exact("node", "20", PrecedenceSource::Cli),
            spec("ruby", VersionRequirement::Latest, PrecedenceSource::Cli),
        ]
    );
}

#[test]
fn version_files_are_read_line_by_line() {
    let source = PrecedenceSource::LegacyFile;
    let requests = parse_version_file("node 18\n\n  python   3.11.4  \nruby system", source, 0);
    assert_eq!(
        requests,
        Ok(vec![
            exact("node", "18", source),
            exact("python", "3.11.4", source),
            spec("ruby", VersionRequirement::System, source),
        ])
    );
    assert_eq!(parse_version_file("", source, 0), Ok(vec![]));
    assert_eq!(parse_version_file("\n \n", source, 0), Ok(vec![]));
}

#[test]
fn a_line_without_a_version_is_refused() {
    let source = PrecedenceSource::LegacyFile;
    let error = parse_version_file("node 18\nruby\npython 3", source, 4).unwrap_err();
    assert_eq!(error.file, 4);
    assert_eq!(error.line, 1);
    assert_eq!(error.text, "ruby");
    assert_eq!(error.failure, ParseFailure::MissingVersion);
    assert_eq!(error.source, source);

    let files = vec!["node 18".to_string(), "ok 1\n bad".to_string(), "worse".to_string()];
    let error = parse_version_files(&files, source).unwrap_err();
    assert_eq!(error.file, 1);
    assert_eq!(error.line, 1);
    assert_eq!(error.failure, ParseFailure::MissingVersion);
}

#[test]
fn requests_are_collected_weakest_first() {
    let global = vec![exact("node", "14", PrecedenceSource::GlobalConfig)];
    let legacy = vec![exact("node", "16", PrecedenceSource::LegacyFile)];
    let project = vec![exact("ruby", "3.2", PrecedenceSource::ProjectConfig)];
    let cli = vec![exact("node", "20", PrecedenceSource::Cli)];
    let all = collect(&global, &legacy, &project, &cli);
    assert_eq!(
        all,
        vec![
            exact("node", "14", PrecedenceSource::GlobalConfig),
            exact("node", "16", PrecedenceSource::LegacyFile),
            exact("ruby", "3.2", PrecedenceSource::ProjectConfig),
            exact("node", "20", PrecedenceSource::Cli),
        ]
    );
    let toolset = resolve(&all, &IndexMap::new());
    assert_eq!(
        toolset.tools,
        vec![
            tool("node", "20", PrecedenceSource::Cli),
            tool("ruby", "3.2", PrecedenceSource::ProjectConfig),
        ]
    );
}
