//! The active-profile pointer: a small record naming the selected profile
//! and whether it is active.  The record is owned by the caller (on disk,
//! between runs); this module only computes its next state.

use crate::path::{force_absolute, spec_force_absolute, FsPath, PathModel};
use vstd::prelude::*;

verus! {

/// Mathematical model of the active-profile record.
pub struct ActiveModel {
    pub profile: PathModel,
    pub active: bool,
}

/// The active-profile record: the selected profile's path and whether it
/// is currently active.
pub struct ActiveProfile {
    profile: FsPath,
    active: bool,
}

impl View for ActiveProfile {
    type V = ActiveModel;

    closed spec fn view(&self) -> ActiveModel {
        ActiveModel { profile: self.profile@, active: self.active }
    }
}

impl ActiveProfile {
    /// Builds the record from its parts.
    pub fn new(profile: FsPath, active: bool) -> (r: ActiveProfile)
        ensures
            r@ == (ActiveModel { profile: profile@, active }),
    {
        ActiveProfile { profile, active }
    }

    /// The selected profile's path.
    pub fn profile(&self) -> (r: &FsPath)
        ensures
            r@ == self@.profile,
    {
        &self.profile
    }

    /// Whether a profile is active.
    pub fn is_active(&self) -> (r: bool)
        ensures
            r == self@.active,
    {
        self.active
    }
}

/// The record that marks the profile at `path` active; a relative path is
/// resolved against the profiles directory.
pub fn set_active_profile(path: &FsPath, profiles_dir: &FsPath) -> (r: ActiveProfile)
    requires
        profiles_dir@.absolute,
    ensures
        r@ == (ActiveModel { profile: spec_force_absolute(path@, profiles_dir@), active: true }),
{
    ActiveProfile { profile: force_absolute(path, profiles_dir), active: true }
}

/// The record with the active mark taken off; the selected path is kept.
pub fn unset_active_profile(active: &ActiveProfile) -> (r: ActiveProfile)
    ensures
        r@ == (ActiveModel { profile: active@.profile, active: false }),
{
    ActiveProfile { profile: active.profile.dup(), active: false }
}

/// The profile to load: the selected path when the record is active,
/// nothing otherwise.
pub fn get_active_profile(active: &ActiveProfile) -> (r: Option<&FsPath>)
    ensures
        match r {
            Some(p) => active@.active && p@ == active@.profile,
            None => !active@.active,
        },
{
    if active.active {
        Some(&active.profile)
    } else {
        None
    }
}

} // verus!
