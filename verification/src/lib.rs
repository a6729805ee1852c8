//! Toolset resolution and shell-environment synchronisation for a polyglot
//! runtime version manager.
//!
//! The library decides; it does not touch the world.  Requests for versions
//! are read ([`requests`]) and resolved into one version per plugin
//! ([`toolset`]).  What is missing is installed as far as the policy allows
//! ([`install`]), through the plugins that the caller provides ([`plugin`]).
//! The tools that can be used make up a patch of the environment ([`env`]),
//! and the shell hook works out the statements that bring a shell in line
//! with that patch ([`hook`]), leaving in the shell a record of what it did
//! ([`marker`]) so that the next run can undo it.  The statements are written
//! in the dialect of the shell ([`shell`]).  Around this stand the settings
//! ([`settings`]), the commands that run a program in a toolset's
//! environment ([`exec`]) and write completions ([`completion`]), and small
//! tools for text ([`text`]), search paths ([`path`]) and ordered maps
//! ([`ordered_map`]).
//!
//! Every function carries a contract over mathematical models of its data
//! (sequences of characters for strings, sequences of pairs for ordered
//! maps), and every contract is machine-checked.  The few facts that are
//! believed rather than proved, all of them about functions of other crates
//! or of the standard library, are marked "Trusted" where they stand.

pub mod text;
pub mod ordered_map;
pub mod settings;
pub mod completion;
pub mod exec;
pub mod toolset;
pub mod requests;
pub mod install;
pub mod plugin;
pub mod path;
pub mod env;
pub mod marker;
pub mod hook;
pub mod shell;
