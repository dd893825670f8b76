//! The core of a lint orchestrator: canonical paths, which files each
//! linter takes, how a linter is invoked and how its output becomes lint
//! messages, the aggregation of all linters' messages by file, the plan of
//! patches to apply, and the text of the rendered results.
//!
//! Processes, files and terminals are left to the caller: the functions here
//! take what those produced as plain values and decide what follows.
pub mod aggregate;
pub mod diff;
pub mod glob_pattern;
pub mod lint_config;
pub mod lint_message;
pub mod linter;
pub mod path;
pub mod render;
pub mod run;
pub mod runners;
pub mod text;
