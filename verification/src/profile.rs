//! A profile: an ordered collection of settings plus profile-level hooks.
//! Its conflict detector reports the first pair of settings that claim the
//! same target path, scanning settings and their targets in declaration
//! order.

use crate::hook::{dup_hooks, view_hooks, Hook, HookModel};
use crate::path::{FsPath, PathModel};
use crate::script::ScriptValueModel;
use crate::setting::{spec_apply_err, spec_apply_some, view_templates, Setting, SettingModel};
use vstd::prelude::*;

verus! {

/// Mathematical model of a profile.
pub struct ProfileModel {
    pub name: Seq<char>,
    pub path: PathModel,
    pub settings: Seq<SettingModel>,
    pub hooks: Seq<HookModel>,
}

/// A named selection of settings, identified by the profile file it was
/// parsed from, with profile-level hooks.
pub struct Profile {
    path: FsPath,
    name: String,
    settings: Vec<Setting>,
    hooks: Vec<Hook>,
}

/// The models of a sequence of settings.
pub open spec fn view_settings(ss: Seq<Setting>) -> Seq<SettingModel> {
    Seq::new(ss.len(), |i: int| ss[i]@)
}

impl View for Profile {
    type V = ProfileModel;

    closed spec fn view(&self) -> ProfileModel {
        ProfileModel {
            name: self.name@,
            path: self.path@,
            settings: view_settings(self.settings@),
            hooks: view_hooks(self.hooks@),
        }
    }
}

/// Whether the setting declares `p` among its target paths.
pub open spec fn spec_setting_claims(s: SettingModel, p: PathModel) -> bool {
    exists|b: int| 0 <= b < s.targets.len() && s.targets[b].0 == p
}

/// Whether `p` is claimed by some target scanned strictly before position
/// `(k, t)`: by any target of an earlier setting, or by an earlier target
/// of setting `k`.
pub open spec fn spec_path_claimed(
    css: Seq<SettingModel>,
    k: int,
    t: int,
    p: PathModel,
) -> bool {
    (exists|a: int, b: int|
        0 <= a < k && 0 <= b < css[a].targets.len() && #[trigger] css[a].targets[b].0 == p) || (0
        <= k < css.len() && exists|b: int| 0 <= b < t && #[trigger] css[k].targets[b].0 == p)
}

/// The first setting in scan order that claims `p`.
pub open spec fn spec_first_claim(css: Seq<SettingModel>, p: PathModel) -> int
    decreases css.len(),
{
    if css.len() == 0 {
        0
    } else if spec_setting_claims(css[0], p) {
        0
    } else {
        1 + spec_first_claim(css.drop_first(), p)
    }
}

/// The first conflict at or after scan position `(k, t)`: the first target
/// whose path an earlier scan position already claimed, reported as
/// (owner setting index, claiming setting index, path).
pub open spec fn spec_conflict_from(css: Seq<SettingModel>, k: int, t: int) -> Option<
    (int, int, PathModel),
>
    decreases css.len() - k, (if 0 <= k < css.len() {
        css[k].targets.len() - t + 1
    } else {
        0
    }),
    when 0 <= k && 0 <= t
{
    if k >= css.len() {
        None
    } else if t >= css[k].targets.len() {
        spec_conflict_from(css, k + 1, 0)
    } else if spec_path_claimed(css, k, t, css[k].targets[t].0) {
        Some((spec_first_claim(css, css[k].targets[t].0), k, css[k].targets[t].0))
    } else {
        spec_conflict_from(css, k, t + 1)
    }
}

/// The settings scanned by conflict detection: the profile's own, followed
/// by the candidate when there is one.
pub open spec fn spec_scan(ss: Seq<SettingModel>, cand: Option<SettingModel>) -> Seq<
    SettingModel,
> {
    match cand {
        None => ss,
        Some(c) => ss.push(c),
    }
}

/// The first conflict among the scanned settings.
pub open spec fn spec_conflict(ss: Seq<SettingModel>, cand: Option<SettingModel>) -> Option<
    (int, int, PathModel),
> {
    spec_conflict_from(spec_scan(ss, cand), 0, 0)
}

/// If `i` is the first scan position whose setting claims `p`, the first
/// claim is found there.
proof fn lemma_first_claim_at(css: Seq<SettingModel>, p: PathModel, i: int)
    requires
        0 <= i < css.len(),
        spec_setting_claims(css[i], p),
        forall|j: int| 0 <= j < i ==> !spec_setting_claims(#[trigger] css[j], p),
    ensures
        spec_first_claim(css, p) == i,
    decreases css.len(),
{
    if i > 0 {
        assert(!spec_setting_claims(css[0], p));
        assert(css.drop_first()[i - 1] == css[i]);
        assert forall|j: int| 0 <= j < i - 1 implies !spec_setting_claims(
            #[trigger] css.drop_first()[j],
            p,
        ) by {
            assert(css.drop_first()[j] == css[j + 1]);
        }
        lemma_first_claim_at(css.drop_first(), p, i - 1);
    }
}

/// Whether the setting declares `p` among its targets.
fn setting_claims(s: &Setting, p: &FsPath) -> (r: bool)
    ensures
        r == spec_setting_claims(s@, p@),
{
    let n = s.target_count();
    let mut b: usize = 0;
    while b < n
        invariant
            b <= n,
            n == s@.targets.len(),
            forall|j: int| 0 <= j < b ==> s@.targets[j].0 != p@,
        decreases n - b,
    {
        if s.target_at(b).matches(p) {
            return true;
        }
        b = b + 1;
    }
    proof {
        if spec_setting_claims(s@, p@) {
            let w = choose|w: int| 0 <= w < s@.targets.len() && s@.targets[w].0 == p@;
            assert(false);
        }
    }
    false
}

impl Profile {
    /// Builds a profile from parsed data.
    pub fn new(name: String, path: FsPath, settings: Vec<Setting>, hooks: Vec<Hook>) -> (r:
        Profile)
        ensures
            r@ == (ProfileModel {
                name: name@,
                path: path@,
                settings: view_settings(settings@),
                hooks: view_hooks(hooks@),
            }),
    {
        Profile { path, name, settings, hooks }
    }

    /// The name of the profile.
    pub fn name(&self) -> (r: &String)
        ensures
            r@ == self@.name,
    {
        &self.name
    }

    /// The path of the profile file, its stable identity.
    pub fn path(&self) -> (r: &FsPath)
        ensures
            r@ == self@.path,
    {
        &self.path
    }

    /// The settings in the profile, in declaration order.
    pub fn settings(&self) -> (r: &Vec<Setting>)
        ensures
            view_settings(r@) == self@.settings,
    {
        &self.settings
    }

    /// The profile-level hooks.
    pub fn hooks(&self) -> (r: &Vec<Hook>)
        ensures
            view_hooks(r@) == self@.hooks,
    {
        &self.hooks
    }

    /// The setting scanned at position `k`: one of the profile's own, or
    /// the candidate at the end.
    fn scan_at<'a>(&'a self, cand: &Option<&'a Setting>, k: usize) -> (r: &'a Setting)
        requires
            k < spec_scan(self@.settings, spec_cand(*cand)).len(),
        ensures
            r@ == spec_scan(self@.settings, spec_cand(*cand))[k as int],
    {
        proof {
            assert(self@.settings.len() == self.settings@.len());
        }
        if k < self.settings.len() {
            proof {
                assert(spec_scan(self@.settings, spec_cand(*cand))[k as int]
                    == self@.settings[k as int]);
            }
            &self.settings[k]
        } else {
            match cand {
                Some(c) => *c,
                None => {
                    proof {
                        assert(false);
                    }
                    &self.settings[0]
                },
            }
        }
    }

    /// Whether `p` is claimed by a scan position strictly before `(k, t)`.
    fn path_claimed(&self, cand: &Option<&Setting>, k: usize, t: usize, p: &FsPath) -> (r: bool)
        requires
            k < spec_scan(self@.settings, spec_cand(*cand)).len(),
            t <= spec_scan(self@.settings, spec_cand(*cand))[k as int].targets.len(),
        ensures
            r == spec_path_claimed(spec_scan(self@.settings, spec_cand(*cand)), k as int, t as int, p@),
    {
        let ghost css = spec_scan(self@.settings, spec_cand(*cand));
        let mut a: usize = 0;
        while a < k
            invariant
                a <= k,
                k < css.len(),
                css == spec_scan(self@.settings, spec_cand(*cand)),
                forall|j: int| 0 <= j < a ==> !spec_setting_claims(#[trigger] css[j], p@),
            decreases k - a,
        {
            if setting_claims(self.scan_at(cand, a), p) {
                return true;
            }
            a = a + 1;
        }
        let sk = self.scan_at(cand, k);
        let mut b: usize = 0;
        while b < t
            invariant
                b <= t,
                k < css.len(),
                t <= css[k as int].targets.len(),
                sk@ == css[k as int],
                css == spec_scan(self@.settings, spec_cand(*cand)),
                forall|j: int| 0 <= j < k ==> !spec_setting_claims(#[trigger] css[j], p@),
                forall|j: int| 0 <= j < b ==> #[trigger] css[k as int].targets[j].0 != p@,
            decreases t - b,
        {
            if sk.target_at(b).matches(p) {
                return true;
            }
            b = b + 1;
        }
        proof {
            if spec_path_claimed(css, k as int, t as int, p@) {
                if exists|a2: int, b2: int|
                    0 <= a2 < k && 0 <= b2 < css[a2].targets.len() && #[trigger] css[a2].targets[b2].0
                        == p@ {
                    let (a2, b2) = choose|a2: int, b2: int|
                        0 <= a2 < k && 0 <= b2 < css[a2].targets.len()
                            && #[trigger] css[a2].targets[b2].0 == p@;
                    assert(spec_setting_claims(css[a2], p@));
                    assert(false);
                } else {
                    let b2 = choose|b2: int| 0 <= b2 < t && #[trigger] css[k as int].targets[b2].0 == p@;
                    assert(false);
                }
            }
        }
        false
    }

    /// The first scanned setting that claims `p`; only meaningful when one
    /// does.
    fn first_claim(&self, cand: &Option<&Setting>, p: &FsPath) -> (r: usize)
        requires
            exists|j: int|
                0 <= j < spec_scan(self@.settings, spec_cand(*cand)).len() && spec_setting_claims(
                    #[trigger] spec_scan(self@.settings, spec_cand(*cand))[j],
                    p@,
                ),
        ensures
            r == spec_first_claim(spec_scan(self@.settings, spec_cand(*cand)), p@),
            r < spec_scan(self@.settings, spec_cand(*cand)).len(),
    {
        let ghost css = spec_scan(self@.settings, spec_cand(*cand));
        let m = self.settings.len();
        proof {
            assert(self@.settings.len() == self.settings@.len());
        }
        let mut a: usize = 0;
        while a < m
            invariant
                a <= m,
                m == self@.settings.len(),
                css == spec_scan(self@.settings, spec_cand(*cand)),
                m <= css.len(),
                forall|j: int| 0 <= j < a ==> !spec_setting_claims(#[trigger] css[j], p@),
            decreases m - a,
        {
            proof {
                assert(css[a as int] == self@.settings[a as int]);
            }
            if setting_claims(self.scan_at(cand, a), p) {
                proof {
                    lemma_first_claim_at(css, p@, a as int);
                }
                return a;
            }
            a = a + 1;
        }
        match cand {
            Some(_) => {
                proof {
                    let w = choose|j: int|
                        0 <= j < css.len() && spec_setting_claims(#[trigger] css[j], p@);
                    assert(w == m);
                    lemma_first_claim_at(css, p@, m as int);
                }
                m
            },
            None => {
                proof {
                    let w = choose|j: int|
                        0 <= j < css.len() && spec_setting_claims(#[trigger] css[j], p@);
                    assert(false);
                }
                0
            },
        }
    }

    /// Checks for settings with conflicting targets.
    /// Scanning every setting's declared targets in order (the candidate
    /// `new_setting` last), the first target path that an earlier scan
    /// position already claimed is reported, together with the setting
    /// that first claimed it and the claiming setting.  Only the first
    /// conflict is reported.
    pub fn setting_conflict(&self, new_setting: Option<&Setting>) -> (r: Option<
        (Setting, Setting, FsPath),
    >)
        ensures
            ({
                let css = spec_scan(self@.settings, spec_cand(new_setting));
                match r {
                    None => spec_conflict(self@.settings, spec_cand(new_setting)) is None,
                    Some((s1, s2, p)) => {
                        &&& spec_conflict(self@.settings, spec_cand(new_setting)) matches Some(c)
                        &&& s1@ == css[c.0]
                        &&& s2@ == css[c.1]
                        &&& p@ == c.2
                    },
                }
            }),
    {
        let ghost css = spec_scan(self@.settings, spec_cand(new_setting));
        let cand = new_setting;
        let m = self.settings.len();
        proof {
            assert(self@.settings.len() == self.settings@.len());
        }
        let mut k: usize = 0;
        while k < m
            invariant
                k <= m,
                m == self@.settings.len(),
                m <= css.len(),
                css == spec_scan(self@.settings, spec_cand(cand)),
                cand == new_setting,
                spec_conflict_from(css, 0, 0) == spec_conflict_from(css, k as int, 0),
            decreases m - k,
        {
            match self.conflict_at(&cand, k) {
                Some(c) => {
                    return Some(c);
                },
                None => {},
            }
            k = k + 1;
        }
        match cand {
            Some(_) => {
                proof {
                    assert((m as int) < css.len());
                }
                match self.conflict_at(&cand, m) {
                    Some(c) => Some(c),
                    None => {
                        proof {
                            assert(spec_conflict_from(css, m + 1, 0) is None);
                        }
                        None
                    },
                }
            },
            None => {
                proof {
                    assert(spec_conflict_from(css, m as int, 0) is None);
                }
                None
            },
        }
    }

    /// The first conflict whose claiming target belongs to scan position
    /// `k`, if there is one.
    fn conflict_at(&self, cand: &Option<&Setting>, k: usize) -> (r: Option<
        (Setting, Setting, FsPath),
    >)
        requires
            k < spec_scan(self@.settings, spec_cand(*cand)).len(),
        ensures
            ({
                let css = spec_scan(self@.settings, spec_cand(*cand));
                match r {
                    None => spec_conflict_from(css, k as int, 0) == spec_conflict_from(
                        css,
                        k + 1,
                        0,
                    ),
                    Some((s1, s2, p)) => {
                        &&& spec_conflict_from(css, k as int, 0) matches Some(c)
                        &&& s1@ == css[c.0]
                        &&& s2@ == css[c.1]
                        &&& p@ == c.2
                    },
                }
            }),
    {
        let ghost css = spec_scan(self@.settings, spec_cand(*cand));
        let sk = self.scan_at(cand, k);
        let tn = sk.target_count();
        let mut t: usize = 0;
        while t < tn
            invariant
                t <= tn,
                k < css.len(),
                tn == css[k as int].targets.len(),
                sk@ == css[k as int],
                css == spec_scan(self@.settings, spec_cand(*cand)),
                spec_conflict_from(css, k as int, 0) == spec_conflict_from(css, k as int, t as int),
            decreases tn - t,
        {
            let p = sk.target_at(t);
            if self.path_claimed(cand, k, t, p) {
                proof {
                    assert(spec_conflict_from(css, k as int, t as int) == Some((
                        spec_first_claim(css, p@),
                        k as int,
                        p@,
                    )));
                }
                let a = self.first_claim(cand, p);
                let owner = self.scan_at(cand, a).dup();
                let claimer = sk.dup();
                return Some((owner, claimer, p.dup()));
            }
            t = t + 1;
        }
        None
    }

    /// Applies the profile.  First the conflict check:
    /// any two settings claiming the same target abort the whole apply and
    /// nothing is staged.  Then every setting stages its rendered targets
    /// in declaration order; any failure aborts with nothing staged.  The
    /// staged (output path, text) pairs for all settings come back in
    /// order, to be written only then; nothing is written here, so a
    /// failure anywhere leaves every output file as it was.
    pub fn apply(&self, templates: &Vec<(FsPath, String)>, scripts_dir: &str) -> (r: Result<
        Vec<(String, String)>,
        Error,
    >)
        ensures
            ({
                let tv = view_templates(templates@);
                match r {
                    Ok(staged) => spec_conflict(self@.settings, None) is None
                        && spec_profile_apply_some(self@, tv, staged.deep_view()),
                    Err(Error::Conflict { setting1, setting2, target }) => {
                        &&& spec_conflict(self@.settings, None) matches Some(c)
                        &&& setting1@ == self@.settings[c.0].name
                        &&& setting2@ == self@.settings[c.1].name
                        &&& target@ == c.2
                    },
                    Err(Error::Setting { setting, error }) => {
                        &&& spec_conflict(self@.settings, None) is None
                        &&& exists|k: int|
                            0 <= k < self@.settings.len() && setting@
                                == #[trigger] self@.settings[k].name
                                && crate::setting::spec_apply_err(
                                self@.settings[k],
                                tv,
                                scripts_dir@,
                                error,
                            )
                    },
                }
            }),
    {
        let ghost tv = view_templates(templates@);
        match self.setting_conflict(None) {
            Some((s1, s2, p)) => {
                return Err(
                    Error::Conflict {
                        setting1: s1.name().clone(),
                        setting2: s2.name().clone(),
                        target: p,
                    },
                );
            },
            None => {},
        }
        let mut staged: Vec<(String, String)> = Vec::new();
        let ghost mut parts: Seq<Seq<(Seq<char>, Seq<char>)>> = Seq::empty();
        let n = self.settings.len();
        proof {
            assert(self@.settings.len() == self.settings@.len());
        }
        let mut k: usize = 0;
        while k < n
            invariant
                k <= n,
                n == self@.settings.len(),
                tv == view_templates(templates@),
                spec_conflict(self@.settings, None) is None,
                parts.len() == k,
                staged.deep_view() == spec_concat_staged(parts, k as int),
                forall|j: int|
                    0 <= j < k ==> spec_apply_some(self@.settings[j], tv, #[trigger] parts[j]),
            decreases n - k,
        {
            proof {
                assert(self@.settings[k as int] == self.settings@[k as int]@);
            }
            match self.settings[k].apply(templates, scripts_dir) {
                Ok(mut part) => {
                    let ghost old_parts = parts;
                    let ghost part_dv = part.deep_view();
                    let ghost staged_dv = staged.deep_view();
                    staged.append(&mut part);
                    proof {
                        parts = parts.push(part_dv);
                        assert(staged.deep_view() =~~= staged_dv + part_dv);
                        lemma_concat_staged_prefix(old_parts, parts, k as int);
                        assert(staged.deep_view() =~= spec_concat_staged(parts, k + 1));
                    }
                },
                Err(e) => {
                    return Err(
                        Error::Setting { setting: self.settings[k].name().clone(), error: e },
                    );
                },
            }
            k = k + 1;
        }
        proof {
            assert(spec_profile_apply_some(self@, tv, staged.deep_view()));
            assert(spec_profile_apply_some(self@, view_templates(templates@), staged.deep_view()));
        }
        Ok(staged)
    }

    /// The hooks to run after the staged files are written: each setting's
    /// hooks in declaration order, then the profile-level hooks.
    pub fn hook_sequence(&self) -> (r: Vec<Hook>)
        ensures
            view_hooks(r@) == spec_hooks_concat(self@.settings, self@.settings.len() as int)
                + self@.hooks,
    {
        let mut out: Vec<Hook> = Vec::new();
        let n = self.settings.len();
        proof {
            assert(self@.settings.len() == self.settings@.len());
        }
        let mut k: usize = 0;
        while k < n
            invariant
                k <= n,
                n == self@.settings.len(),
                view_hooks(out@) == spec_hooks_concat(self@.settings, k as int),
            decreases n - k,
        {
            proof {
                assert(self@.settings[k as int] == self.settings@[k as int]@);
            }
            let mut hs = dup_hooks(self.settings[k].hooks());
            let ghost out_dv = view_hooks(out@);
            let ghost hs_dv = view_hooks(hs@);
            out.append(&mut hs);
            proof {
                assert(view_hooks(out@) =~~= out_dv + hs_dv);
                assert(view_hooks(out@) =~= spec_hooks_concat(self@.settings, k + 1));
            }
            k = k + 1;
        }
        let mut ph = dup_hooks(&self.hooks);
        let ghost out_dv = view_hooks(out@);
        let ghost ph_dv = view_hooks(ph@);
        out.append(&mut ph);
        proof {
            assert(view_hooks(out@) =~~= out_dv + ph_dv);
        }
        out
    }

    /// Removes every setting whose file path equals `path`; the core of
    /// disabling a setting.  Order among the kept settings is unchanged.
    pub fn disable_setting(&mut self, path: &FsPath)
        ensures
            final(self)@.settings == spec_remove_path(
                old(self)@.settings,
                path@,
                old(self)@.settings.len() as int,
            ),
            final(self)@.name == old(self)@.name,
            final(self)@.path == old(self)@.path,
            final(self)@.hooks == old(self)@.hooks,
    {
        let ghost ss = self@.settings;
        let ghost pv = path@;
        let mut kept: Vec<Setting> = Vec::new();
        let mut i: usize = 0;
        proof {
            assert(ss.len() == self.settings@.len());
        }
        while i < self.settings.len()
            invariant
                i <= self.settings.len(),
                ss == view_settings(self.settings@),
                ss == old(self)@.settings,
                ss.len() == self.settings@.len(),
                pv == path@,
                view_settings(kept@) == spec_remove_path(ss, pv, i as int),
                self@ == old(self)@,
            decreases self.settings.len() - i,
        {
            proof {
                assert(ss[i as int] == self.settings@[i as int]@);
            }
            if !self.settings[i].path().matches(path) {
                let ghost before = view_settings(kept@);
                kept.push(self.settings[i].dup());
                proof {
                    assert(view_settings(kept@) =~~= before.push(ss[i as int]));
                }
            }
            i = i + 1;
        }
        self.settings = kept;
        proof {
            assert(final(self)@.settings =~~= spec_remove_path(ss, pv, ss.len() as int));
        }
    }

    /// Enables a setting, resolving conflicts by always replacing the
    /// owning setting: while the candidate conflicts with the list, every
    /// setting sharing the conflicting owner's file path is dropped; the
    /// candidate is then appended.  When dropping would change nothing (the
    /// candidate conflicts with itself), the conflict is returned instead
    /// and the list is left as it stands.
    pub fn enable_setting(&mut self, setting: Setting) -> (r: Result<
        (),
        (Setting, Setting, FsPath),
    >)
        ensures
            final(self)@.settings == spec_enable(old(self)@.settings, setting@).0,
            r is Ok <==> !spec_enable(old(self)@.settings, setting@).1,
            final(self)@.name == old(self)@.name,
            final(self)@.path == old(self)@.path,
            final(self)@.hooks == old(self)@.hooks,
    {
        let ghost ss0 = self@.settings;
        let ghost cv = setting@;
        loop
            invariant
                cv == setting@,
                spec_enable(self@.settings, cv) == spec_enable(ss0, cv),
                self@.name == old(self)@.name,
                self@.path == old(self)@.path,
                self@.hooks == old(self)@.hooks,
                ss0 == old(self)@.settings,
            decreases self@.settings.len(),
        {
            let ghost cur = self@.settings;
            match self.setting_conflict(Some(&setting)) {
                None => {
                    self.settings.push(setting);
                    proof {
                        assert(view_settings(self.settings@) =~~= cur.push(cv));
                    }
                    return Ok(());
                },
                Some((s1, s2, p)) => {
                    let before = self.settings.len();
                    proof {
                        assert(cur.len() == before);
                        lemma_remove_path_len(cur, s1@.path, cur.len() as int);
                    }
                    let owner_path = s1.path().dup();
                    self.disable_setting(&owner_path);
                    if self.settings.len() == before {
                        proof {
                            assert(self@.settings =~= cur.take(cur.len() as int));
                            assert(cur.take(cur.len() as int) =~= cur);
                            assert(spec_enable(cur, cv).1);
                        }
                        return Err((s1, s2, p));
                    }
                    proof {
                        assert(self@.settings == spec_remove_path(cur, s1@.path, cur.len() as int));
                        assert(spec_enable(self@.settings, cv) == spec_enable(cur, cv));
                    }
                },
            }
        }
    }
}

/// The first `n` settings with those whose file path equals `p` removed,
/// order kept.
pub open spec fn spec_remove_path(ss: Seq<SettingModel>, p: PathModel, n: int) -> Seq<
    SettingModel,
>
    decreases n,
{
    if n <= 0 {
        Seq::empty()
    } else {
        let prev = spec_remove_path(ss, p, n - 1);
        if ss[n - 1].path == p {
            prev
        } else {
            prev.push(ss[n - 1])
        }
    }
}

/// Removing never lengthens, and removes nothing only when it changes
/// nothing.
proof fn lemma_remove_path_len(ss: Seq<SettingModel>, p: PathModel, n: int)
    requires
        0 <= n <= ss.len(),
    ensures
        spec_remove_path(ss, p, n).len() <= n,
        spec_remove_path(ss, p, n).len() == n ==> spec_remove_path(ss, p, n) == ss.take(n),
    decreases n,
{
    if n > 0 {
        lemma_remove_path_len(ss, p, n - 1);
        if spec_remove_path(ss, p, n).len() == n {
            assert(spec_remove_path(ss, p, n - 1).len() == n - 1);
            assert(spec_remove_path(ss, p, n) =~= ss.take(n));
        }
    }
}

/// What enabling a candidate does to the settings list: while the scan
/// finds a conflict, every setting sharing the owner's file path is
/// dropped; when dropping would change nothing the attempt is stuck
/// (second component true); otherwise the candidate is appended.
pub open spec fn spec_enable(ss: Seq<SettingModel>, cand: SettingModel) -> (
    Seq<SettingModel>,
    bool,
)
    decreases ss.len(),
    via spec_enable_dec
{
    match spec_conflict(ss, Some(cand)) {
        None => (ss.push(cand), false),
        Some(c) => {
            let owner_path = spec_scan(ss, Some(cand))[c.0].path;
            let removed = spec_remove_path(ss, owner_path, ss.len() as int);
            if removed.len() == ss.len() {
                (ss, true)
            } else {
                spec_enable(removed, cand)
            }
        },
    }
}

#[via_fn]
proof fn spec_enable_dec(ss: Seq<SettingModel>, cand: SettingModel) {
    match spec_conflict(ss, Some(cand)) {
        Some(c) => {
            let owner_path = spec_scan(ss, Some(cand))[c.0].path;
            lemma_remove_path_len(ss, owner_path, ss.len() as int);
        },
        None => {},
    }
}

/// Scanning a setting whose targets so far raised no conflict moves the
/// scan to the next position.
proof fn lemma_skip_unclaimed(css: Seq<SettingModel>, k: int, t_end: int)
    requires
        0 <= k < css.len(),
        0 <= t_end <= css[k].targets.len(),
        forall|t: int|
            0 <= t < t_end ==> !spec_path_claimed(css, k, t, #[trigger] css[k].targets[t].0),
    ensures
        spec_conflict_from(css, k, 0) == spec_conflict_from(css, k, t_end),
    decreases t_end,
{
    if t_end > 0 {
        lemma_skip_unclaimed(css, k, t_end - 1);
    }
}

/// Conflict detection is symmetric: when two settings with no internal
/// duplicate targets share exactly the one target path `p`, scanning them
/// as [first, second] reports (first, second, p), whichever of the two
/// stands first.
pub proof fn lemma_conflict_symmetric(a: SettingModel, b: SettingModel, p: PathModel)
    requires
        spec_setting_claims(a, p),
        spec_setting_claims(b, p),
        forall|i: int, j: int|
            0 <= i < j < a.targets.len() ==> #[trigger] a.targets[i].0 != #[trigger] a.targets[j].0,
        forall|i: int, j: int|
            0 <= i < j < b.targets.len() ==> #[trigger] b.targets[i].0 != #[trigger] b.targets[j].0,
        forall|i: int, j: int|
            0 <= i < a.targets.len() && 0 <= j < b.targets.len() && #[trigger] a.targets[i].0
                == #[trigger] b.targets[j].0 ==> a.targets[i].0 == p,
    ensures
        spec_conflict(seq![a, b], None) == Some((0int, 1int, p)),
        spec_conflict(seq![b, a], None) == Some((0int, 1int, p)),
{
    lemma_conflict_ordered(a, b, p);
    assert forall|i: int, j: int|
        0 <= i < b.targets.len() && 0 <= j < a.targets.len() && #[trigger] b.targets[i].0
            == #[trigger] a.targets[j].0 implies b.targets[i].0 == p by {
        assert(a.targets[j].0 == b.targets[i].0);
    }
    lemma_conflict_ordered(b, a, p);
}

/// Scanning [first, second] under the assumptions of symmetry reports
/// (first, second, p).
proof fn lemma_conflict_ordered(a: SettingModel, b: SettingModel, p: PathModel)
    requires
        spec_setting_claims(a, p),
        spec_setting_claims(b, p),
        forall|i: int, j: int|
            0 <= i < j < a.targets.len() ==> #[trigger] a.targets[i].0 != #[trigger] a.targets[j].0,
        forall|i: int, j: int|
            0 <= i < j < b.targets.len() ==> #[trigger] b.targets[i].0 != #[trigger] b.targets[j].0,
        forall|i: int, j: int|
            0 <= i < a.targets.len() && 0 <= j < b.targets.len() && #[trigger] a.targets[i].0
                == #[trigger] b.targets[j].0 ==> a.targets[i].0 == p,
    ensures
        spec_conflict(seq![a, b], None) == Some((0int, 1int, p)),
{
    let css = seq![a, b];
    assert(css[0] == a && css[1] == b);
    // no conflict arises while scanning the first setting's own targets
    assert forall|t: int|
        0 <= t < a.targets.len() implies !spec_path_claimed(css, 0, t, #[trigger] css[0].targets[t].0) by {
        if spec_path_claimed(css, 0, t, css[0].targets[t].0) {
            let t2 = choose|t2: int| 0 <= t2 < t && #[trigger] css[0].targets[t2].0 == css[0].targets[t].0;
            assert(a.targets[t2].0 != a.targets[t].0);
        }
    }
    lemma_skip_unclaimed(css, 0, a.targets.len() as int);
    assert(spec_conflict_from(css, 0, a.targets.len() as int) == spec_conflict_from(css, 1, 0));
    // the first of the second setting's targets that collides is p
    let tb = choose|tb: int| 0 <= tb < b.targets.len() && b.targets[tb].0 == p;
    // every b target with a smaller index than the one carrying p raises
    // no conflict; p itself conflicts with a.  Walk up to the occurrence
    // of p in b's targets.
    assert forall|t: int|
        0 <= t < tb implies !spec_path_claimed(css, 1, t, #[trigger] css[1].targets[t].0) by {
        if spec_path_claimed(css, 1, t, css[1].targets[t].0) {
            if exists|x: int, y: int|
                0 <= x < 1 && 0 <= y < css[x].targets.len() && #[trigger] css[x].targets[y].0
                    == css[1].targets[t].0 {
                let (x, y) = choose|x: int, y: int|
                    0 <= x < 1 && 0 <= y < css[x].targets.len() && #[trigger] css[x].targets[y].0
                        == css[1].targets[t].0;
                assert(a.targets[y].0 == b.targets[t].0);
                assert(b.targets[t].0 == p);
                assert(b.targets[t].0 != b.targets[tb].0);
            } else {
                let y = choose|y: int| 0 <= y < t && #[trigger] css[1].targets[y].0
                    == css[1].targets[t].0;
                assert(b.targets[y].0 != b.targets[t].0);
            }
        }
    }
    lemma_skip_unclaimed(css, 1, tb);
    // at the occurrence of p, the first setting has already claimed it
    let ta = choose|ta: int| 0 <= ta < a.targets.len() && a.targets[ta].0 == p;
    assert(css[0].targets[ta].0 == p);
    assert(spec_path_claimed(css, 1, tb, p));
    assert(spec_conflict_from(css, 1, tb) == Some((spec_first_claim(css, p), 1int, p)));
    lemma_first_claim_at(css, p, 0);
}

/// The error type for applying a profile.
#[derive(Debug)]
pub enum Error {
    /// Two settings claim the same target path; nothing is applied.
    Conflict { setting1: String, setting2: String, target: FsPath },
    /// One of the settings failed to stage its targets; nothing is
    /// written.
    Setting { setting: String, error: crate::setting::Error },
}

/// The first `n` per-setting staged sequences run together in order.
pub open spec fn spec_concat_staged(
    parts: Seq<Seq<(Seq<char>, Seq<char>)>>,
    n: int,
) -> Seq<(Seq<char>, Seq<char>)>
    decreases n,
{
    if n <= 0 {
        Seq::empty()
    } else {
        spec_concat_staged(parts, n - 1) + parts[n - 1]
    }
}

/// The concatenation reads only the first `n` parts.
proof fn lemma_concat_staged_prefix(
    p1: Seq<Seq<(Seq<char>, Seq<char>)>>,
    p2: Seq<Seq<(Seq<char>, Seq<char>)>>,
    n: int,
)
    requires
        forall|j: int| 0 <= j < n ==> p1[j] == p2[j],
    ensures
        spec_concat_staged(p1, n) == spec_concat_staged(p2, n),
    decreases n,
{
    if n > 0 {
        lemma_concat_staged_prefix(p1, p2, n - 1);
    }
}

/// Whether per-setting staged parts explain the staged pairs: one part
/// per setting, in order, each explained by some script results.
pub open spec fn spec_profile_apply_some(
    pm: ProfileModel,
    tv: Seq<(PathModel, Seq<char>)>,
    staged: Seq<(Seq<char>, Seq<char>)>,
) -> bool {
    exists|parts: Seq<Seq<(Seq<char>, Seq<char>)>>|
        {
            &&& parts.len() == pm.settings.len()
            &&& staged == spec_concat_staged(parts, parts.len() as int)
            &&& forall|k: int|
                0 <= k < pm.settings.len() ==> spec_apply_some(
                    pm.settings[k],
                    tv,
                    #[trigger] parts[k],
                )
        }
}

/// The hooks to run after a profile's files are written: every setting's
/// hooks first, in declaration order, then the profile-level hooks.
pub open spec fn spec_hooks_concat(ss: Seq<SettingModel>, n: int) -> Seq<HookModel>
    decreases n,
{
    if n <= 0 {
        Seq::empty()
    } else {
        spec_hooks_concat(ss, n - 1) + ss[n - 1].hooks
    }
}

/// The model of an optional borrowed setting.
pub open spec fn spec_cand(cand: Option<&Setting>) -> Option<SettingModel> {
    match cand {
        None => None,
        Some(c) => Some(c@),
    }
}

/// Whether the given per-setting script results explain the staged pairs:
/// one part per setting, in order, each target staged from those results.
pub open spec fn spec_profile_apply_ok(
    pm: ProfileModel,
    tv: Seq<(PathModel, Seq<char>)>,
    results: Seq<Seq<Seq<Seq<(Seq<char>, ScriptValueModel)>>>>,
    staged: Seq<(Seq<char>, Seq<char>)>,
) -> bool {
    exists|parts: Seq<Seq<(Seq<char>, Seq<char>)>>|
        {
            &&& parts.len() == pm.settings.len()
            &&& staged == spec_concat_staged(parts, parts.len() as int)
            &&& forall|k: int|
                0 <= k < pm.settings.len() ==> crate::setting::spec_apply_ok(
                    pm.settings[k],
                    tv,
                    results[k],
                    #[trigger] parts[k],
                )
        }
}

/// Staged pairs explained by given script results are in particular
/// explained by some: the deterministic relation refines the one
/// `Profile::apply` ensures.
pub proof fn lemma_profile_ok_some(
    pm: ProfileModel,
    tv: Seq<(PathModel, Seq<char>)>,
    results: Seq<Seq<Seq<Seq<(Seq<char>, ScriptValueModel)>>>>,
    staged: Seq<(Seq<char>, Seq<char>)>,
)
    requires
        spec_profile_apply_ok(pm, tv, results, staged),
    ensures
        spec_profile_apply_some(pm, tv, staged),
{
    let parts = choose|parts: Seq<Seq<(Seq<char>, Seq<char>)>>|
        {
            &&& parts.len() == pm.settings.len()
            &&& staged == spec_concat_staged(parts, parts.len() as int)
            &&& forall|k: int|
                0 <= k < pm.settings.len() ==> crate::setting::spec_apply_ok(
                    pm.settings[k],
                    tv,
                    results[k],
                    #[trigger] parts[k],
                )
        };
    assert forall|k: int| 0 <= k < pm.settings.len() implies spec_apply_some(
        pm.settings[k],
        tv,
        #[trigger] parts[k],
    ) by {
        assert(crate::setting::spec_apply_ok(pm.settings[k], tv, results[k], parts[k]));
    }
}

/// Applying a profile is deterministic: with the same settings, the same
/// templates and the same script results, the staged pairs are identical,
/// byte for byte — applying the same profile twice with no source changes
/// produces the same output files.
pub proof fn lemma_profile_apply_deterministic(
    pm: ProfileModel,
    tv: Seq<(PathModel, Seq<char>)>,
    results: Seq<Seq<Seq<Seq<(Seq<char>, ScriptValueModel)>>>>,
    staged1: Seq<(Seq<char>, Seq<char>)>,
    staged2: Seq<(Seq<char>, Seq<char>)>,
)
    requires
        spec_profile_apply_ok(pm, tv, results, staged1),
        spec_profile_apply_ok(pm, tv, results, staged2),
    ensures
        staged1 == staged2,
{
    let parts1 = choose|parts: Seq<Seq<(Seq<char>, Seq<char>)>>|
        {
            &&& parts.len() == pm.settings.len()
            &&& staged1 == spec_concat_staged(parts, parts.len() as int)
            &&& forall|k: int|
                0 <= k < pm.settings.len() ==> crate::setting::spec_apply_ok(
                    pm.settings[k],
                    tv,
                    results[k],
                    #[trigger] parts[k],
                )
        };
    let parts2 = choose|parts: Seq<Seq<(Seq<char>, Seq<char>)>>|
        {
            &&& parts.len() == pm.settings.len()
            &&& staged2 == spec_concat_staged(parts, parts.len() as int)
            &&& forall|k: int|
                0 <= k < pm.settings.len() ==> crate::setting::spec_apply_ok(
                    pm.settings[k],
                    tv,
                    results[k],
                    #[trigger] parts[k],
                )
        };
    assert forall|k: int| 0 <= k < parts1.len() implies parts1[k] == parts2[k] by {
        crate::setting::lemma_apply_deterministic(
            pm.settings[k],
            tv,
            results[k],
            parts1[k],
            parts2[k],
        );
    }
    assert(parts1 =~= parts2);
}

} // verus!
