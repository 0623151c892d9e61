//! Hooks that run with Rust.

pub mod installer;
pub mod installer_laws;
pub mod language;
pub mod laws;
pub mod package;
pub mod plan;
pub mod toolchain;
pub mod version;
