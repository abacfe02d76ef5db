//! Composable configuration rendering: settings select values per target
//! path, profiles bundle settings, and templates turn composed value maps
//! into output files.
//!
//! A setting declares value tables for render targets, with path-hierarchy
//! composition: walking from a target path up to the filesystem root, the
//! nearest table to declare a key wins, and a global table fills in the
//! rest.  A profile is an ordered selection of settings with a conflict
//! detector over their target paths.  Script-derived values are evaluated
//! by an external engine and flattened into dot-separated text entries.
//! Templates pair a declared output path with a body whose `{{key}}`
//! placeholders the composed map fills in.  Applying stages every rendered
//! file in memory before anything is written, so a failure anywhere leaves
//! every output file untouched.

pub mod active;
pub mod dirs;
pub mod hook;
pub mod hooks;
pub mod path;
pub mod profile;
pub mod script;
pub mod setting;
pub mod strmap;
pub mod template;
pub mod text;
pub mod value;
