//! What the library asks of the world around it: the plugins that provide
//! runtimes, and the terminal at which a person may sit.
//!
//! Nothing is assumed of how these behave.  Whatever they return, the
//! functions that call them keep their promises.

use crate::install::{InstallJob, PromptAnswer};
use vstd::prelude::*;

verus! {

/// The provider of install, list, path and environment operations for the
/// plugins, however each plugin is made.
pub trait PluginAdapter {
    /// The versions of `plugin` that can be installed, oldest first.
    fn list_remote_versions(&mut self, plugin: &str) -> Vec<String>;

    /// The versions of `plugin` that are installed at this moment.
    fn list_installed_versions(&mut self, plugin: &str) -> Vec<String>;

    /// Installs one version of a plugin; on failure, says why.
    fn install(&mut self, plugin: &str, version: &str) -> Result<(), String>;

    /// Runs several installs, at most `parallelism` of them at a time, and
    /// returns when all have ended: how each ended, in the order of `jobs`.
    fn install_all(&mut self, jobs: &Vec<InstallJob>, parallelism: usize) -> Vec<
        Result<(), String>,
    >;

    /// The directories with the executables of an installed version.
    fn bin_paths(&mut self, plugin: &str, version: &str) -> Vec<String>;

    /// The variables that an installed version wants set.
    fn exec_env(&mut self, plugin: &str, version: &str) -> Vec<(String, String)>;
}

/// The place where questions are asked and warnings shown.
pub trait Terminal {
    /// Asks whether to install a missing version.
    fn confirm(&mut self, plugin: &str, version: &str) -> PromptAnswer;

    /// Warns that a version is missing and stays so.
    fn warn_missing(&mut self, plugin: &str, version: &str);
}

} // verus!
