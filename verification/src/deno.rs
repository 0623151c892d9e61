//! Hooks that run with Deno.

pub mod installer;
pub mod installer_laws;
pub mod language;
pub mod laws;
pub mod version;
