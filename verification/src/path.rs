//! Paths as sequences of bytes, in the syntax of Unix or of Windows.

pub mod buf;
pub mod clean;
pub mod laws;
pub mod model;
pub mod normalize;
pub mod ops;
pub mod parse;
pub mod parts;
pub mod relative;
pub mod simplified;
pub mod syntax;
pub mod utf8;
pub mod verbatim;
pub mod ways;
pub mod windows;
pub mod windows_ways;

pub use self::buf::PathBuf;
pub use self::clean::{PathClean, clean};
pub use self::normalize::normalize_path;
pub use self::relative::{NoRelativePath, relative_path, relative_to};
pub use self::simplified::Simplified;
pub use self::utf8::{IntoUtf8PathBuf, ToUtf8Path, Utf8PathBuf, path_text};
