//! Process-wide settings and the builder that merges them from several sources.

use crate::ordered_map::{clone_tables, entries, insert, new_map, new_tables, tables, Pair};
use crate::text::{bool_string, bool_text, decimal_string, decimal_text, str_eq};
use indexmap::IndexMap;
use log::LevelFilter;
use vstd::prelude::*;

verus! {

/// Aliases per plugin: plugin name, then alias, then the version it stands for.
pub type AliasMap = IndexMap<String, IndexMap<String, String>>;

/// What to do when a requested runtime version is not installed.
#[derive(Debug, Clone, Copy, PartialEq, Eq, Structural)]
pub enum MissingRuntimeBehavior {
    AutoInstall,
    Prompt,
    Warn,
    Ignore,
}

impl MissingRuntimeBehavior {
    /// The lower-case name of the behaviour, as written in configuration.
    pub open spec fn name(self) -> Seq<char> {
        match self {
            MissingRuntimeBehavior::AutoInstall => "autoinstall"@,
            MissingRuntimeBehavior::Prompt => "prompt"@,
            MissingRuntimeBehavior::Warn => "warn"@,
            MissingRuntimeBehavior::Ignore => "ignore"@,
        }
    }

    /// The behaviour that a configuration name stands for, if it is one.
    pub open spec fn named(text: Seq<char>) -> Option<MissingRuntimeBehavior> {
        if text == "autoinstall"@ {
            Some(MissingRuntimeBehavior::AutoInstall)
        } else if text == "warn"@ {
            Some(MissingRuntimeBehavior::Warn)
        } else if text == "ignore"@ {
            Some(MissingRuntimeBehavior::Ignore)
        } else if text == "prompt"@ {
            Some(MissingRuntimeBehavior::Prompt)
        } else {
            None
        }
    }

    /// Renders the behaviour as its configuration name.
    pub fn to_string(&self) -> (out: String)
        ensures
            out@ == self.name(),
    {
        match self {
            MissingRuntimeBehavior::AutoInstall => "autoinstall".to_owned(),
            MissingRuntimeBehavior::Prompt => "prompt".to_owned(),
            MissingRuntimeBehavior::Warn => "warn".to_owned(),
            MissingRuntimeBehavior::Ignore => "ignore".to_owned(),
        }
    }

    /// Reads a behaviour from its configuration name.
    pub fn parse(text: &str) -> (out: Option<MissingRuntimeBehavior>)
        ensures
            out == MissingRuntimeBehavior::named(text@),
    {
        if str_eq(text, "autoinstall") {
            Some(MissingRuntimeBehavior::AutoInstall)
        } else if str_eq(text, "warn") {
            Some(MissingRuntimeBehavior::Warn)
        } else if str_eq(text, "ignore") {
            Some(MissingRuntimeBehavior::Ignore)
        } else if str_eq(text, "prompt") {
            Some(MissingRuntimeBehavior::Prompt)
        } else {
            None
        }
    }
}

/// Every name is read back as the behaviour it was rendered from.
pub proof fn lemma_behavior_name_round_trip(b: MissingRuntimeBehavior)
    ensures
        MissingRuntimeBehavior::named(b.name()) == Some(b),
{
    reveal_strlit("autoinstall");
    reveal_strlit("prompt");
    reveal_strlit("warn");
    reveal_strlit("ignore");
    assert("autoinstall"@.len() == 11);
    assert("prompt"@.len() == 6);
    assert("warn"@.len() == 4);
    assert("ignore"@[0] == 'i');
    assert("prompt"@[0] == 'p');
}

/// The most verbose level of log message that is let through.
#[derive(Debug, Clone, Copy, PartialEq, Eq, Structural)]
pub enum LogLevel {
    Off,
    Error,
    Warn,
    Info,
    Debug,
    Trace,
}

impl LogLevel {
    /// The upper-case name of the level.
    pub open spec fn name(self) -> Seq<char> {
        match self {
            LogLevel::Off => "OFF"@,
            LogLevel::Error => "ERROR"@,
            LogLevel::Warn => "WARN"@,
            LogLevel::Info => "INFO"@,
            LogLevel::Debug => "DEBUG"@,
            LogLevel::Trace => "TRACE"@,
        }
    }

    /// Renders the level as its upper-case name.
    ///
    /// Trusted: wraps the `Display` rendering of `log::LevelFilter`, which
    /// writes the level's entry in the crate's table of names: `OFF`, `ERROR`,
    /// `WARN`, `INFO`, `DEBUG` or `TRACE`.
    #[verifier::external_body]
    pub(crate) fn render(self) -> (out: String)
        ensures
            out@ == self.name(),
    {
        let filter = match self {
            LogLevel::Off => LevelFilter::Off,
            LogLevel::Error => LevelFilter::Error,
            LogLevel::Warn => LevelFilter::Warn,
            LogLevel::Info => LevelFilter::Info,
            LogLevel::Debug => LevelFilter::Debug,
            LogLevel::Trace => LevelFilter::Trace,
        };
        filter.to_string()
    }

    /// Renders the level as its upper-case name.
    pub fn to_string(&self) -> (out: String)
        ensures
            out@ == self.name(),
    {
        self.render()
    }
}

/// What the process environment contributes to the settings.
#[derive(Debug, Clone)]
pub struct EnvSettings {
    /// Verbose output was asked for.
    pub verbose: bool,
    /// A person is watching the error stream.
    pub stderr_attended: bool,
    pub asdf_compat: bool,
    pub jobs: usize,
    pub shorthands_file: Option<String>,
    pub disable_default_shorthands: bool,
    pub log_level: LogLevel,
    pub shims_dir: Option<String>,
    /// The behaviour named in the environment, which overrides configuration
    /// when it is a known name.
    pub missing_runtime_behavior: Option<String>,
}

/// One week, in seconds.
pub const DEFAULT_LAST_CHECK_SECONDS: u64 = 604800;

#[derive(Debug)]
pub struct Settings {
    pub experimental: bool,
    pub missing_runtime_behavior: MissingRuntimeBehavior,
    pub always_keep_download: bool,
    pub legacy_version_file: bool,
    /// How long a plugin's list of remote versions stays fresh, in seconds.
    pub plugin_autoupdate_last_check_duration: u64,
    pub aliases: AliasMap,
    pub verbose: bool,
    pub asdf_compat: bool,
    pub jobs: usize,
    pub shorthands_file: Option<String>,
    pub disable_default_shorthands: bool,
    pub log_level: LogLevel,
    pub shims_dir: Option<String>,
}

fn clone_opt(s: &Option<String>) -> (out: Option<String>)
    ensures
        out == *s,
{
    match s {
        Some(s) => Some(s.clone()),
        None => None,
    }
}

impl Clone for Settings {
    fn clone(&self) -> (out: Settings)
        ensures
            out.same_as(self),
    {
        Settings {
            experimental: self.experimental,
            missing_runtime_behavior: self.missing_runtime_behavior,
            always_keep_download: self.always_keep_download,
            legacy_version_file: self.legacy_version_file,
            plugin_autoupdate_last_check_duration: self.plugin_autoupdate_last_check_duration,
            aliases: clone_tables(&self.aliases),
            verbose: self.verbose,
            asdf_compat: self.asdf_compat,
            jobs: self.jobs,
            shorthands_file: clone_opt(&self.shorthands_file),
            disable_default_shorthands: self.disable_default_shorthands,
            log_level: self.log_level,
            shims_dir: clone_opt(&self.shims_dir),
        }
    }
}

impl Settings {
    /// Two settings agree in every field, the aliases by what they hold.
    pub open spec fn same_as(&self, other: &Settings) -> bool {
        &&& self.experimental == other.experimental
        &&& self.missing_runtime_behavior == other.missing_runtime_behavior
        &&& self.always_keep_download == other.always_keep_download
        &&& self.legacy_version_file == other.legacy_version_file
        &&& self.plugin_autoupdate_last_check_duration
            == other.plugin_autoupdate_last_check_duration
        &&& tables(self.aliases) == tables(other.aliases)
        &&& self.verbose == other.verbose
        &&& self.asdf_compat == other.asdf_compat
        &&& self.jobs == other.jobs
        &&& self.shorthands_file == other.shorthands_file
        &&& self.disable_default_shorthands == other.disable_default_shorthands
        &&& self.log_level == other.log_level
        &&& self.shims_dir == other.shims_dir
    }

    /// The settings in force when no configuration says otherwise.
    pub fn from_env(env: &EnvSettings) -> (out: Settings)
        ensures
            !out.experimental,
            out.missing_runtime_behavior == MissingRuntimeBehavior::Prompt,
            !out.always_keep_download,
            out.legacy_version_file,
            out.plugin_autoupdate_last_check_duration == DEFAULT_LAST_CHECK_SECONDS,
            tables(out.aliases).len() == 0,
            out.verbose == (env.verbose || !env.stderr_attended),
            out.asdf_compat == env.asdf_compat,
            out.jobs == env.jobs,
            out.shorthands_file == env.shorthands_file,
            out.disable_default_shorthands == env.disable_default_shorthands,
            out.log_level == env.log_level,
            out.shims_dir == env.shims_dir,
    {
        Settings {
            experimental: false,
            missing_runtime_behavior: MissingRuntimeBehavior::Prompt,
            always_keep_download: false,
            legacy_version_file: true,
            plugin_autoupdate_last_check_duration: DEFAULT_LAST_CHECK_SECONDS,
            aliases: new_tables(),
            verbose: env.verbose || !env.stderr_attended,
            asdf_compat: env.asdf_compat,
            jobs: env.jobs,
            shorthands_file: clone_opt(&env.shorthands_file),
            disable_default_shorthands: env.disable_default_shorthands,
            log_level: env.log_level,
            shims_dir: clone_opt(&env.shims_dir),
        }
    }

    /// The first eight rows of the listing, which are always present.
    pub open spec fn fixed_rows(&self) -> Seq<Pair> {
        seq![
            ("experimental"@, bool_text(self.experimental)),
            ("missing_runtime_behavior"@, self.missing_runtime_behavior.name()),
            ("always_keep_download"@, bool_text(self.always_keep_download)),
            ("legacy_version_file"@, bool_text(self.legacy_version_file)),
            (
                "plugin_autoupdate_last_check_duration"@,
                decimal_text((self.plugin_autoupdate_last_check_duration / 60) as nat),
            ),
            ("verbose"@, bool_text(self.verbose)),
            ("asdf_compat"@, bool_text(self.asdf_compat)),
            ("jobs"@, decimal_text(self.jobs as nat)),
        ]
    }

    /// The settings as rows of name and text, in the order they are listed.
    /// The check duration is given in whole minutes; an unset path has no row.
    pub open spec fn rows(&self) -> Seq<Pair> {
        let head = match self.shorthands_file {
            Some(file) => self.fixed_rows().push(("shorthands_file"@, file@)),
            None => self.fixed_rows(),
        };
        let body = head.push(
            ("disable_default_shorthands"@, bool_text(self.disable_default_shorthands)),
        ).push(("log_level"@, self.log_level.name()));
        match self.shims_dir {
            Some(dir) => body.push(("shims_dir"@, dir@)),
            None => body,
        }
    }

    /// Lists the settings as an ordered map from name to text.
    pub fn to_index_map(&self) -> (map: IndexMap<String, String>)
        ensures
            entries(map) == self.rows(),
    {
        proof {
            lemma_row_names();
        }
        let mut map = new_map();
        put(&mut map, "experimental", bool_string(self.experimental));
        put(&mut map, "missing_runtime_behavior", self.missing_runtime_behavior.to_string());
        put(&mut map, "always_keep_download", bool_string(self.always_keep_download));
        put(&mut map, "legacy_version_file", bool_string(self.legacy_version_file));
        put(
            &mut map,
            "plugin_autoupdate_last_check_duration",
            decimal_string(self.plugin_autoupdate_last_check_duration / 60),
        );
        put(&mut map, "verbose", bool_string(self.verbose));
        put(&mut map, "asdf_compat", bool_string(self.asdf_compat));
        put(&mut map, "jobs", decimal_string(self.jobs as u64));
        assert(entries(map) =~= self.fixed_rows());
        if let Some(file) = &self.shorthands_file {
            put(&mut map, "shorthands_file", file.clone());
        }
        put(
            &mut map,
            "disable_default_shorthands",
            bool_string(self.disable_default_shorthands),
        );
        put(&mut map, "log_level", self.log_level.to_string());
        if let Some(dir) = &self.shims_dir {
            put(&mut map, "shims_dir", dir.clone());
        }
        map
    }
}

/// The later of two optional values: `over` where it is set, else `base`.
pub open spec fn layered<T>(base: Option<T>, over: Option<T>) -> Option<T> {
    if over is Some {
        over
    } else {
        base
    }
}

/// The value in force: `set` where it is given, else `fallback`.
pub open spec fn or_default<T>(set: Option<T>, fallback: T) -> T {
    match set {
        Some(v) => v,
        None => fallback,
    }
}

/// Settings as far as one or more sources give them; what no source gives is
/// left unset.
#[derive(Debug)]
pub struct SettingsBuilder {
    pub experimental: Option<bool>,
    pub missing_runtime_behavior: Option<MissingRuntimeBehavior>,
    pub always_keep_download: Option<bool>,
    pub legacy_version_file: Option<bool>,
    /// In seconds.
    pub plugin_autoupdate_last_check_duration: Option<u64>,
    pub aliases: Option<AliasMap>,
    pub verbose: Option<bool>,
    pub asdf_compat: Option<bool>,
    pub jobs: Option<usize>,
    pub shorthands_file: Option<String>,
    pub disable_default_shorthands: Option<bool>,
    pub log_level: Option<LogLevel>,
    pub shims_dir: Option<String>,
}

impl Default for SettingsBuilder {
    fn default() -> (out: SettingsBuilder)
        ensures
            out == SettingsBuilder::unset(),
    {
        SettingsBuilder {
            experimental: None,
            missing_runtime_behavior: None,
            always_keep_download: None,
            legacy_version_file: None,
            plugin_autoupdate_last_check_duration: None,
            aliases: None,
            verbose: None,
            asdf_compat: None,
            jobs: None,
            shorthands_file: None,
            disable_default_shorthands: None,
            log_level: None,
            shims_dir: None,
        }
    }
}

impl Clone for SettingsBuilder {
    fn clone(&self) -> (out: SettingsBuilder)
        ensures
            out.experimental == self.experimental,
            out.missing_runtime_behavior == self.missing_runtime_behavior,
            out.always_keep_download == self.always_keep_download,
            out.legacy_version_file == self.legacy_version_file,
            out.plugin_autoupdate_last_check_duration
                == self.plugin_autoupdate_last_check_duration,
            alias_tables(out.aliases) == alias_tables(self.aliases),
            out.verbose == self.verbose,
            out.asdf_compat == self.asdf_compat,
            out.jobs == self.jobs,
            out.shorthands_file == self.shorthands_file,
            out.disable_default_shorthands == self.disable_default_shorthands,
            out.log_level == self.log_level,
            out.shims_dir == self.shims_dir,
    {
        SettingsBuilder {
            experimental: self.experimental,
            missing_runtime_behavior: self.missing_runtime_behavior,
            always_keep_download: self.always_keep_download,
            legacy_version_file: self.legacy_version_file,
            plugin_autoupdate_last_check_duration: self.plugin_autoupdate_last_check_duration,
            aliases: match &self.aliases {
                Some(aliases) => Some(clone_tables(aliases)),
                None => None,
            },
            verbose: self.verbose,
            asdf_compat: self.asdf_compat,
            jobs: self.jobs,
            shorthands_file: clone_opt(&self.shorthands_file),
            disable_default_shorthands: self.disable_default_shorthands,
            log_level: self.log_level,
            shims_dir: clone_opt(&self.shims_dir),
        }
    }
}

/// What an optional alias map holds.
pub open spec fn alias_tables(aliases: Option<AliasMap>) -> Option<Seq<(Seq<char>, Seq<Pair>)>> {
    match aliases {
        Some(a) => Some(tables(a)),
        None => None,
    }
}

impl SettingsBuilder {
    /// The builder in which nothing is set.
    pub open spec fn unset() -> SettingsBuilder {
        SettingsBuilder {
            experimental: None,
            missing_runtime_behavior: None,
            always_keep_download: None,
            legacy_version_file: None,
            plugin_autoupdate_last_check_duration: None,
            aliases: None,
            verbose: None,
            asdf_compat: None,
            jobs: None,
            shorthands_file: None,
            disable_default_shorthands: None,
            log_level: None,
            shims_dir: None,
        }
    }

    /// This builder with `other` laid over it: each field is that of `other`
    /// where `other` sets it, and stays as it is where `other` does not.
    pub open spec fn merged(self, other: SettingsBuilder) -> SettingsBuilder {
        SettingsBuilder {
            experimental: layered(self.experimental, other.experimental),
            missing_runtime_behavior: layered(
                self.missing_runtime_behavior,
                other.missing_runtime_behavior,
            ),
            always_keep_download: layered(self.always_keep_download, other.always_keep_download),
            legacy_version_file: layered(self.legacy_version_file, other.legacy_version_file),
            plugin_autoupdate_last_check_duration: layered(
                self.plugin_autoupdate_last_check_duration,
                other.plugin_autoupdate_last_check_duration,
            ),
            aliases: layered(self.aliases, other.aliases),
            verbose: layered(self.verbose, other.verbose),
            asdf_compat: layered(self.asdf_compat, other.asdf_compat),
            jobs: layered(self.jobs, other.jobs),
            shorthands_file: layered(self.shorthands_file, other.shorthands_file),
            disable_default_shorthands: layered(
                self.disable_default_shorthands,
                other.disable_default_shorthands,
            ),
            log_level: layered(self.log_level, other.log_level),
            shims_dir: layered(self.shims_dir, other.shims_dir),
        }
    }

    /// Lays `other` over this builder, field by field.
    pub fn _merge(&mut self, other: SettingsBuilder) -> (out: &mut SettingsBuilder)
        ensures
            *out == old(self).merged(other),
            *final(self) == *final(out),
    {
        if other.experimental.is_some() {
            self.experimental = other.experimental;
        }
        if other.missing_runtime_behavior.is_some() {
            self.missing_runtime_behavior = other.missing_runtime_behavior;
        }
        if other.always_keep_download.is_some() {
            self.always_keep_download = other.always_keep_download;
        }
        if other.legacy_version_file.is_some() {
            self.legacy_version_file = other.legacy_version_file;
        }
        if other.plugin_autoupdate_last_check_duration.is_some() {
            self.plugin_autoupdate_last_check_duration =
            other.plugin_autoupdate_last_check_duration;
        }
        if other.verbose.is_some() {
            self.verbose = other.verbose;
        }
        if other.asdf_compat.is_some() {
            self.asdf_compat = other.asdf_compat;
        }
        if other.jobs.is_some() {
            self.jobs = other.jobs;
        }
        if other.shorthands_file.is_some() {
            self.shorthands_file = other.shorthands_file;
        }
        if other.disable_default_shorthands.is_some() {
            self.disable_default_shorthands = other.disable_default_shorthands;
        }
        if other.log_level.is_some() {
            self.log_level = other.log_level;
        }
        if other.shims_dir.is_some() {
            self.shims_dir = other.shims_dir;
        }
        if other.aliases.is_some() {
            self.aliases = other.aliases;
        }
        self
    }

    /// The behaviour in force: the one named in the environment where that is
    /// a known name, else the one set here, else to prompt.
    pub open spec fn behavior_in_force(&self, env: &EnvSettings) -> MissingRuntimeBehavior {
        let named = match env.missing_runtime_behavior {
            Some(text) => MissingRuntimeBehavior::named(text@),
            None => None,
        };
        match named {
            Some(behavior) => behavior,
            None => or_default(self.missing_runtime_behavior, MissingRuntimeBehavior::Prompt),
        }
    }

    /// Completes the builder into settings: each field is the one set here,
    /// or else its default, which for some fields comes from the environment.
    pub fn build(&self, env: &EnvSettings) -> (out: Settings)
        ensures
            out.experimental == or_default(self.experimental, false),
            out.missing_runtime_behavior == self.behavior_in_force(env),
            out.always_keep_download == or_default(self.always_keep_download, false),
            out.legacy_version_file == or_default(self.legacy_version_file, true),
            out.plugin_autoupdate_last_check_duration == or_default(
                self.plugin_autoupdate_last_check_duration,
                DEFAULT_LAST_CHECK_SECONDS,
            ),
            tables(out.aliases) == or_default(
                alias_tables(self.aliases),
                Seq::<(Seq<char>, Seq<Pair>)>::empty(),
            ),
            out.verbose == or_default(self.verbose, env.verbose || !env.stderr_attended),
            out.asdf_compat == or_default(self.asdf_compat, env.asdf_compat),
            out.jobs == or_default(self.jobs, env.jobs),
            out.shorthands_file == layered(env.shorthands_file, self.shorthands_file),
            out.disable_default_shorthands == or_default(
                self.disable_default_shorthands,
                env.disable_default_shorthands,
            ),
            out.log_level == or_default(self.log_level, env.log_level),
            out.shims_dir == layered(env.shims_dir, self.shims_dir),
    {
        let defaults = Settings::from_env(env);
        let named = match &env.missing_runtime_behavior {
            Some(text) => MissingRuntimeBehavior::parse(text.as_str()),
            None => None,
        };
        let configured = pick(self.missing_runtime_behavior, defaults.missing_runtime_behavior);
        Settings {
            experimental: pick(self.experimental, defaults.experimental),
            missing_runtime_behavior: pick(named, configured),
            always_keep_download: pick(self.always_keep_download, defaults.always_keep_download),
            legacy_version_file: pick(self.legacy_version_file, defaults.legacy_version_file),
            plugin_autoupdate_last_check_duration: pick(
                self.plugin_autoupdate_last_check_duration,
                defaults.plugin_autoupdate_last_check_duration,
            ),
            aliases: match &self.aliases {
                Some(aliases) => clone_tables(aliases),
                None => defaults.aliases,
            },
            verbose: pick(self.verbose, defaults.verbose),
            asdf_compat: pick(self.asdf_compat, defaults.asdf_compat),
            jobs: pick(self.jobs, defaults.jobs),
            shorthands_file: pick_text(&self.shorthands_file, defaults.shorthands_file),
            disable_default_shorthands: pick(
                self.disable_default_shorthands,
                defaults.disable_default_shorthands,
            ),
            log_level: pick(self.log_level, defaults.log_level),
            shims_dir: pick_text(&self.shims_dir, defaults.shims_dir),
        }
    }
}

fn pick<T: Copy>(set: Option<T>, fallback: T) -> (out: T)
    ensures
        out == or_default(set, fallback),
{
    match set {
        Some(value) => value,
        None => fallback,
    }
}

fn pick_text(set: &Option<String>, fallback: Option<String>) -> (out: Option<String>)
    ensures
        out == layered(fallback, *set),
{
    match set {
        Some(text) => Some(text.clone()),
        None => fallback,
    }
}

/// The names of the rows differ from one another: all by their length, but
/// for the last two, which differ in their first letter.
proof fn lemma_row_names()
    ensures
        "experimental"@.len() == 12,
        "missing_runtime_behavior"@.len() == 24,
        "always_keep_download"@.len() == 20,
        "legacy_version_file"@.len() == 19,
        "plugin_autoupdate_last_check_duration"@.len() == 37,
        "verbose"@.len() == 7,
        "asdf_compat"@.len() == 11,
        "jobs"@.len() == 4,
        "shorthands_file"@.len() == 15,
        "disable_default_shorthands"@.len() == 26,
        "log_level"@.len() == 9,
        "shims_dir"@.len() == 9,
        "log_level"@[0] == 'l',
        "shims_dir"@[0] == 's',
{
    reveal_strlit("experimental");
    reveal_strlit("missing_runtime_behavior");
    reveal_strlit("always_keep_download");
    reveal_strlit("legacy_version_file");
    reveal_strlit("plugin_autoupdate_last_check_duration");
    reveal_strlit("verbose");
    reveal_strlit("asdf_compat");
    reveal_strlit("jobs");
    reveal_strlit("shorthands_file");
    reveal_strlit("disable_default_shorthands");
    reveal_strlit("log_level");
    reveal_strlit("shims_dir");
}

/// Stores a row under a name that the map does not hold yet.
fn put(map: &mut IndexMap<String, String>, key: &str, value: String)
    requires
        forall|i: int| 0 <= i < entries(*old(map)).len() ==> entries(*old(map))[i].0 != key@,
    ensures
        entries(*final(map)) == entries(*old(map)).push((key@, value@)),
{
    insert(map, key.to_owned(), value);
}

} // verus!
