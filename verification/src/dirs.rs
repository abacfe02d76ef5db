//! The application's configuration directories: each one is a fixed name
//! under the `rconfigure` directory in the OS configuration directory.
//! These functions only compute the paths; looking the OS directory up and
//! creating what is missing is I/O and stays with the caller.

use crate::path::{FsPath, PathModel};
use vstd::prelude::*;

verus! {

/// The error type for interacting with config directories.
#[derive(Debug)]
pub enum Error {
    /// The OS reports no user configuration directory.
    NoOSConfigDir,
    /// The directory could not be created.
    FailedToCreateDir(FsPath),
    /// The path exists but is not a directory.
    PathIsNotADir(FsPath),
}

/// The path `base` extended by one component.
fn push_component(base: &FsPath, name: &str) -> (r: FsPath)
    ensures
        r@ == (PathModel { absolute: base@.absolute, parts: base@.parts.push(name@) }),
{
    let mut parts: Vec<String> = Vec::new();
    parts.push(name.to_owned());
    let rel = FsPath::new(false, parts);
    proof {
        assert(rel@.parts =~~= seq![name@]);
        assert(base@.parts + seq![name@] =~= base@.parts.push(name@));
    }
    base.join(&rel)
}

/// The `rconfigure` directory in the OS config directory; an error when
/// the OS reports none.
pub fn config_dir(os_config_dir: Option<&FsPath>) -> (r: Result<FsPath, Error>)
    ensures
        match r {
            Ok(p) => os_config_dir matches Some(base) && p@ == (PathModel {
                absolute: base@.absolute,
                parts: base@.parts.push("rconfigure"@),
            }),
            Err(e) => os_config_dir is None && e is NoOSConfigDir,
        },
{
    match os_config_dir {
        Some(base) => Ok(push_component(base, "rconfigure")),
        None => Err(Error::NoOSConfigDir),
    }
}

/// The `hooks` directory in the application config.
pub fn hooks_dir(config_dir: &FsPath) -> (r: FsPath)
    ensures
        r@ == (PathModel { absolute: config_dir@.absolute, parts: config_dir@.parts.push("hooks"@) }),
{
    push_component(config_dir, "hooks")
}

/// The `profiles` directory in the application config.
pub fn profiles_dir(config_dir: &FsPath) -> (r: FsPath)
    ensures
        r@ == (PathModel {
            absolute: config_dir@.absolute,
            parts: config_dir@.parts.push("profiles"@),
        }),
{
    push_component(config_dir, "profiles")
}

/// The `scripts` directory in the application config.
pub fn scripts_dir(config_dir: &FsPath) -> (r: FsPath)
    ensures
        r@ == (PathModel {
            absolute: config_dir@.absolute,
            parts: config_dir@.parts.push("scripts"@),
        }),
{
    push_component(config_dir, "scripts")
}

/// The `settings` directory in the application config.
pub fn settings_dir(config_dir: &FsPath) -> (r: FsPath)
    ensures
        r@ == (PathModel {
            absolute: config_dir@.absolute,
            parts: config_dir@.parts.push("settings"@),
        }),
{
    push_component(config_dir, "settings")
}

/// The `templates` directory in the application config.
pub fn templates_dir(config_dir: &FsPath) -> (r: FsPath)
    ensures
        r@ == (PathModel {
            absolute: config_dir@.absolute,
            parts: config_dir@.parts.push("templates"@),
        }),
{
    push_component(config_dir, "templates")
}

} // verus!
