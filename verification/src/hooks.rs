//! Hooks files: named bundles of commands, each bound to an event such as
//! running before or after an apply.  The library carries the parsed data;
//! reading the file and running commands stay with the caller.

use crate::hook::{dup_hooks, view_hooks, Hook as Command, HookModel};
use vstd::prelude::*;

verus! {

/// The error type for interacting with hooks files.
pub enum Error {
    /// Neither the named file nor its `.toml` fallback exists.
    FileNotFound { name: String, parent: crate::path::FsPath },
    /// The hooks path is the root or ends in `..`.
    RootOrPrefix(crate::path::FsPath),
}

/// When a hook is to run, as a hooks file declares it.
pub enum Hook {
    BeforeAfter { before: String, after: String },
    Before { before: String },
    After { after: String },
}

/// Mathematical model of a named command bundle.
pub struct HookEntryModel {
    pub name: Seq<char>,
    pub commands: Seq<HookModel>,
}

/// The container for raw hooks file data: named bundles of commands, in
/// declaration order.
pub struct Hooks {
    entries: Vec<(String, Vec<Command>)>,
    path: crate::path::FsPath,
}

/// The models of the named bundles.
pub open spec fn view_hook_entries(entries: Seq<(String, Vec<Command>)>) -> Seq<HookEntryModel> {
    Seq::new(
        entries.len(),
        |i: int| HookEntryModel { name: entries[i].0@, commands: view_hooks(entries[i].1@) },
    )
}

impl Hooks {
    /// Builds a hooks table from parsed data.
    pub fn new(entries: Vec<(String, Vec<Command>)>, path: crate::path::FsPath) -> (r: Hooks)
        ensures
            view_hook_entries(r.entries_view()) == view_hook_entries(entries@),
            r.path_view() == path@,
    {
        Hooks { entries, path }
    }

    /// The entry sequence, as a spec value.
    pub closed spec fn entries_view(&self) -> Seq<(String, Vec<Command>)> {
        self.entries@
    }

    /// The file the hooks were read from, as a spec value.
    pub closed spec fn path_view(&self) -> crate::path::PathModel {
        self.path@
    }

    /// The number of named bundles.
    pub fn len(&self) -> (r: usize)
        ensures
            r == view_hook_entries(self.entries_view()).len(),
    {
        self.entries.len()
    }

    /// The name of the bundle at `i`.
    pub fn name_at(&self, i: usize) -> (r: &String)
        requires
            i < view_hook_entries(self.entries_view()).len(),
        ensures
            r@ == view_hook_entries(self.entries_view())[i as int].name,
    {
        &self.entries[i].0
    }

    /// The commands of the bundle at `i`, copied out.
    pub fn commands_at(&self, i: usize) -> (r: Vec<Command>)
        requires
            i < view_hook_entries(self.entries_view()).len(),
        ensures
            view_hooks(r@) == view_hook_entries(self.entries_view())[i as int].commands,
    {
        dup_hooks(&self.entries[i].1)
    }
}

} // verus!
