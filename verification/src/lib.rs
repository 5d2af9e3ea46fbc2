//! Release resolution for binaries published on GitHub: reading a version out
//! of free-form text, choosing one asset of a release by a name pattern, and
//! taking one named file out of a compressed archive.

pub mod config;
pub mod domain;
pub mod path;
pub mod text;
pub mod update;
pub mod utils;
pub mod version;
