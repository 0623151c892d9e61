//! The rules by which a manager of git hooks handles paths, finds and installs the
//! toolchains of Deno and Rust hooks, and runs hooks.
//!
//! - [`path`]: paths of Unix and Windows, cleaned, compared and related to one another
//!   without a look at the file system.
//! - [`version`]: semantic versions and requirements on them.
//! - [`deno`] and [`rust`]: which toolchain a hook asks for, how it is found or installed,
//!   how the environment of the hook is made and how the hook is run.
//! - [`script`]: hooks that are scripts.
//! - [`fs`]: links, moves and locks.
//! - [`run`]: the commands and the results of batches of files.
//! - [`yaml`]: scalars of YAML.
//! - [`action`]: what these flows ask of the outside world. No function here touches it: a
//!   flow is a function from a phase and an outcome to the next phase and action.
//!
//! Every function states what it does over the views of its arguments. What holds of
//! several functions, or of all steps of a flow, is stated by the proof functions whose
//! names start with `law_`.

pub mod action;
pub mod deno;
pub mod fs;
pub mod hook;
pub mod path;
pub mod platform;
pub mod run;
pub mod rust;
pub mod script;
pub mod strings;
pub mod text;
pub mod version;
pub mod yaml;
