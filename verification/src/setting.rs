//! A setting: a reusable fragment that declares values for one or more
//! render targets, with an optional global fallback table.  Its heart is
//! path-hierarchy composition: walking from a target path up to the
//! filesystem root, the nearest table to declare a key wins, and the global
//! table fills in whatever is still missing.

use crate::hook::{dup_hooks, view_hooks, Hook, HookModel};
use crate::path::{FsPath, PathModel};
use crate::script::{
    eval_rhai, flatten, spec_flatten, view_script_entries, view_script_value, ScriptValue,
    ScriptValueModel,
};
use crate::strmap::{
    lemma_concat_key, lemma_first_map_concat, lemma_first_map_dom, lemma_first_map_push_any,
    lemma_push_key, map_contains, map_set, seq_first_map, seq_has_key,
};
use crate::template::{spec_body, spec_lines, spec_render, Template};
use crate::value::{
    spec_is_script, spec_stringify, view_value, view_value_entries, Value, ValueModel,
};
use vstd::prelude::*;

verus! {

/// Mathematical model of a setting.
pub struct SettingModel {
    pub name: Seq<char>,
    pub path: PathModel,
    pub global: Seq<(Seq<char>, ValueModel)>,
    pub targets: Seq<(PathModel, Seq<(Seq<char>, ValueModel)>)>,
    pub hooks: Seq<HookModel>,
}

/// A reusable configuration fragment: named, identified by the file it was
/// parsed from, declaring a value table per target path and an optional
/// global fallback table (held empty when absent).
#[derive(Debug)]
pub struct Setting {
    name: String,
    hooks: Vec<Hook>,
    path: FsPath,
    global: Vec<(String, Value)>,
    targets: Vec<(FsPath, Vec<(String, Value)>)>,
}

/// The models of a sequence of target tables.
pub open spec fn view_targets(ts: Seq<(FsPath, Vec<(String, Value)>)>) -> Seq<
    (PathModel, Seq<(Seq<char>, ValueModel)>),
> {
    Seq::new(ts.len(), |i: int| (ts[i].0@, view_value_entries(ts[i].1@)))
}

impl View for Setting {
    type V = SettingModel;

    closed spec fn view(&self) -> SettingModel {
        SettingModel {
            name: self.name@,
            path: self.path@,
            global: view_value_entries(self.global@),
            targets: view_targets(self.targets@),
            hooks: view_hooks(self.hooks@),
        }
    }
}

/// Whether some entry carries key `k`.
pub open spec fn spec_table_has_key(table: Seq<(Seq<char>, ValueModel)>, k: Seq<char>) -> bool {
    exists|i: int| 0 <= i < table.len() && table[i].0 == k
}

/// The accumulator after folding in the first `n` entries of one table:
/// an entry is appended only when its key is still absent, so whatever is
/// already accumulated wins.
pub open spec fn spec_add_table(
    acc: Seq<(Seq<char>, ValueModel)>,
    table: Seq<(Seq<char>, ValueModel)>,
    n: int,
) -> Seq<(Seq<char>, ValueModel)>
    decreases n,
{
    if n <= 0 {
        acc
    } else {
        let acc2 = spec_add_table(acc, table, n - 1);
        if spec_table_has_key(acc2, table[n - 1].0) {
            acc2
        } else {
            acc2.push(table[n - 1])
        }
    }
}

/// The accumulator after folding in the first `n` declared tables whose
/// path equals `p`, in declaration order.
pub open spec fn spec_add_level(
    acc: Seq<(Seq<char>, ValueModel)>,
    targets: Seq<(PathModel, Seq<(Seq<char>, ValueModel)>)>,
    p: PathModel,
    n: int,
) -> Seq<(Seq<char>, ValueModel)>
    decreases n,
{
    if n <= 0 {
        acc
    } else {
        let acc2 = spec_add_level(acc, targets, p, n - 1);
        if targets[n - 1].0 == p {
            spec_add_table(acc2, targets[n - 1].1, targets[n - 1].1.len() as int)
        } else {
            acc2
        }
    }
}

/// The parent path: one component fewer.
pub open spec fn spec_parent(p: PathModel) -> PathModel {
    PathModel { absolute: p.absolute, parts: p.parts.drop_last() }
}

/// The accumulator after walking from `p` to the root, folding in each
/// level's tables, and folding in the global table at the end.
pub open spec fn spec_walk(
    acc: Seq<(Seq<char>, ValueModel)>,
    targets: Seq<(PathModel, Seq<(Seq<char>, ValueModel)>)>,
    global: Seq<(Seq<char>, ValueModel)>,
    p: PathModel,
) -> Seq<(Seq<char>, ValueModel)>
    decreases p.parts.len(),
{
    let acc2 = spec_add_level(acc, targets, p, targets.len() as int);
    if p.parts.len() == 0 {
        spec_add_table(acc2, global, global.len() as int)
    } else {
        spec_walk(acc2, targets, global, spec_parent(p))
    }
}

/// The composed entries for a target: the walk from the target path to the
/// root, most specific level first, global table last.
pub open spec fn spec_compose_entries(s: SettingModel, target: PathModel) -> Seq<
    (Seq<char>, ValueModel),
> {
    spec_walk(Seq::empty(), s.targets, s.global, target)
}

/// Mathematical model of a script call.
pub struct ScriptCallModel {
    pub name: Seq<char>,
    pub script: Seq<char>,
    pub value: ScriptValueModel,
}

/// One script evaluation a target needs: the field name the result will be
/// flattened under, the script path or identifier, and the input value.
pub struct ScriptCall {
    pub name: String,
    pub script: String,
    pub value: ScriptValue,
}

/// The model of a script call.
pub open spec fn view_script_call(c: ScriptCall) -> ScriptCallModel {
    ScriptCallModel { name: c.name@, script: c.script@, value: view_script_value(c.value) }
}

/// The models of a sequence of script calls.
pub open spec fn view_script_calls(cs: Seq<ScriptCall>) -> Seq<ScriptCallModel> {
    Seq::new(cs.len(), |i: int| view_script_call(cs[i]))
}

/// The flat text entries of the scalar values among the first `n` composed
/// entries, in composed order.
pub open spec fn spec_literals(entries: Seq<(Seq<char>, ValueModel)>, n: int) -> Seq<
    (Seq<char>, Seq<char>),
>
    decreases n,
{
    if n <= 0 {
        Seq::empty()
    } else {
        let prev = spec_literals(entries, n - 1);
        if spec_is_script(entries[n - 1].1) {
            prev
        } else {
            prev.push((entries[n - 1].0, spec_stringify(entries[n - 1].1)))
        }
    }
}

/// The script calls among the first `n` composed entries, in composed
/// order.
pub open spec fn spec_calls(entries: Seq<(Seq<char>, ValueModel)>, n: int) -> Seq<
    ScriptCallModel,
>
    decreases n,
{
    if n <= 0 {
        Seq::empty()
    } else {
        let prev = spec_calls(entries, n - 1);
        match entries[n - 1].1 {
            ValueModel::Script { script, value } => prev.push(
                ScriptCallModel { name: entries[n - 1].0, script, value },
            ),
            _ => prev,
        }
    }
}

/// The error type for applying a setting.
#[derive(Debug)]
pub enum Error {
    /// No template was supplied for this declared target path.
    MissingTemplate { target: FsPath },
    /// The script at this resolved path failed to evaluate.
    ScriptFailed { script: String },
    /// The target's template could not be parsed or rendered.
    Template { target: FsPath, error: crate::template::Error },
}

/// The flat entries of the first `n` script results, each flattened under
/// its call's field name as a table, run together in call order.
pub open spec fn spec_flat_results(
    calls: Seq<ScriptCallModel>,
    results: Seq<Seq<(Seq<char>, ScriptValueModel)>>,
    n: int,
) -> Seq<(Seq<char>, Seq<char>)>
    decreases n,
{
    if n <= 0 {
        Seq::empty()
    } else {
        spec_flat_results(calls, results, n - 1) + spec_flatten(
            calls[n - 1].name,
            ScriptValueModel::Table(results[n - 1]),
        )
    }
}

/// The script entries laid over the literals: the first `n` flat entries
/// folded in, later entries overwriting earlier ones, except that a key
/// the literal map already binds is never taken.
pub open spec fn spec_overlay(
    lit: Map<Seq<char>, Seq<char>>,
    flat: Seq<(Seq<char>, Seq<char>)>,
    n: int,
) -> Map<Seq<char>, Seq<char>>
    decreases n,
{
    if n <= 0 {
        Map::empty()
    } else {
        let m = spec_overlay(lit, flat, n - 1);
        if lit.dom().contains(flat[n - 1].0) {
            m
        } else {
            m.insert(flat[n - 1].0, flat[n - 1].1)
        }
    }
}

/// The final text map for a target, given the script results: literals
/// win; among script entries the last applied wins.
pub open spec fn spec_target_text_map(
    s: SettingModel,
    t: PathModel,
    results: Seq<Seq<(Seq<char>, ScriptValueModel)>>,
) -> Map<Seq<char>, Seq<char>> {
    let ce = spec_compose_entries(s, t);
    let calls = spec_calls(ce, ce.len() as int);
    let lit = seq_first_map(spec_literals(ce, ce.len() as int));
    let flat = spec_flat_results(calls, results, calls.len() as int);
    spec_overlay(lit, flat, flat.len() as int).union_prefer_right(lit)
}

/// The models of the supplied (template path, template source) pairs.
pub open spec fn view_templates(ts: Seq<(FsPath, String)>) -> Seq<(PathModel, Seq<char>)> {
    Seq::new(ts.len(), |i: int| (ts[i].0@, ts[i].1@))
}

/// The source of the first supplied template whose path is `p`.
pub open spec fn spec_find_template(tv: Seq<(PathModel, Seq<char>)>, p: PathModel) -> Option<
    Seq<char>,
>
    decreases tv.len(),
{
    if tv.len() == 0 {
        None
    } else if tv[0].0 == p {
        Some(tv[0].1)
    } else {
        spec_find_template(tv.drop_first(), p)
    }
}

/// If `i` is the first position whose template path is `p`, that source is
/// found.
proof fn lemma_find_template_at(tv: Seq<(PathModel, Seq<char>)>, p: PathModel, i: int)
    requires
        0 <= i < tv.len(),
        tv[i].0 == p,
        forall|j: int| 0 <= j < i ==> tv[j].0 != p,
    ensures
        spec_find_template(tv, p) == Some(tv[i].1),
    decreases tv.len(),
{
    if i > 0 {
        assert(tv.drop_first()[i - 1] == tv[i]);
        assert forall|j: int| 0 <= j < i - 1 implies tv.drop_first()[j].0 != p by {
            assert(tv.drop_first()[j] == tv[j + 1]);
        }
        lemma_find_template_at(tv.drop_first(), p, i - 1);
    }
}

/// When no supplied template path is `p`, none is found.
proof fn lemma_find_template_none(tv: Seq<(PathModel, Seq<char>)>, p: PathModel)
    requires
        forall|j: int| 0 <= j < tv.len() ==> tv[j].0 != p,
    ensures
        spec_find_template(tv, p) is None,
    decreases tv.len(),
{
    if tv.len() > 0 {
        assert forall|j: int| 0 <= j < tv.drop_first().len() implies tv.drop_first()[j].0 != p by {
            assert(tv.drop_first()[j] == tv[j + 1]);
        }
        lemma_find_template_none(tv.drop_first(), p);
    }
}

/// The source supplied for target `p`: the first pair whose path matches.
fn find_template<'a>(templates: &'a Vec<(FsPath, String)>, p: &FsPath) -> (r: Option<&'a String>)
    ensures
        match r {
            Some(src) => spec_find_template(view_templates(templates@), p@) == Some(src@),
            None => spec_find_template(view_templates(templates@), p@) is None,
        },
{
    let ghost tv = view_templates(templates@);
    let mut i: usize = 0;
    while i < templates.len()
        invariant
            i <= templates.len(),
            tv == view_templates(templates@),
            tv.len() == templates@.len(),
            forall|j: int| 0 <= j < i ==> tv[j].0 != p@,
        decreases templates.len() - i,
    {
        proof {
            assert(tv[i as int] == (templates@[i as int].0@, templates@[i as int].1@));
        }
        if templates[i].0.matches(p) {
            proof {
                lemma_find_template_at(tv, p@, i as int);
            }
            return Some(&templates[i].1);
        }
        i = i + 1;
    }
    proof {
        lemma_find_template_none(tv, p@);
    }
    None
}

/// What resolving a script path yields: a path that starts with `/` stays
/// as it is; any other is placed under the scripts directory.
pub open spec fn spec_resolve_script(sd: Seq<char>, script: Seq<char>) -> Seq<char> {
    if script.len() > 0 && script[0] == '/' {
        script
    } else {
        sd + "/"@ + script
    }
}

/// Resolves a script path against the scripts directory.
fn resolve_script_path(scripts_dir: &str, script: &String) -> (r: String)
    ensures
        r@ == spec_resolve_script(scripts_dir@, script@),
{
    let n = script.as_str().unicode_len();
    if n > 0 && script.as_str().get_char(0) == '/' {
        script.clone()
    } else {
        let mut out = scripts_dir.to_owned();
        out.append("/");
        out.append(script.as_str());
        proof {
            assert(out@ =~= scripts_dir@ + "/"@ + script@);
        }
        out
    }
}

/// One target rendered, with the script results it took
/// as the only free choice: the composed map is split into literals and
/// script calls, the results are flattened and laid over the literals, the
/// supplied template parses with a header and renders with no key missing,
/// and the staged pair is the declared output path with the rendered text.
pub open spec fn spec_target_ok(
    s: SettingModel,
    t: PathModel,
    tv: Seq<(PathModel, Seq<char>)>,
    results: Seq<Seq<(Seq<char>, ScriptValueModel)>>,
    out: (Seq<char>, Seq<char>),
) -> bool {
    let ce = spec_compose_entries(s, t);
    let calls = spec_calls(ce, ce.len() as int);
    let m = spec_target_text_map(s, t, results);
    &&& results.len() == calls.len()
    &&& match spec_find_template(tv, t) {
        Some(src) => {
            let rr = spec_render(spec_body(src), m);
            &&& src.len() > 0
            &&& !rr.unclosed
            &&& rr.missing.len() == 0
            &&& out == (spec_lines(src)[0], rr.text)
        },
        None => false,
    }
}

/// The script calls of a target, written out once.
pub open spec fn spec_target_calls(s: SettingModel, t: PathModel) -> Seq<ScriptCallModel> {
    let ce = spec_compose_entries(s, t);
    spec_calls(ce, ce.len() as int)
}

/// Whether `script` is the resolved path of some script call of some
/// target of the setting.
pub open spec fn spec_setting_script(s: SettingModel, sd: Seq<char>, script: Seq<char>) -> bool {
    exists|i: int, j: int|
        0 <= i < s.targets.len() && 0 <= j < spec_target_calls(s, #[trigger] s.targets[i].0).len()
            && script == spec_resolve_script(
            sd,
            #[trigger] spec_target_calls(s, s.targets[i].0)[j].script,
        )
}

/// Whether some script results make the target's template render with an
/// unclosed placeholder.
pub open spec fn spec_render_unclosed_some(s: SettingModel, t: PathModel, src: Seq<char>) -> bool {
    exists|results: Seq<Seq<(Seq<char>, ScriptValueModel)>>|
        results.len() == spec_target_calls(s, t).len() && spec_render(
            spec_body(src),
            #[trigger] spec_target_text_map(s, t, results),
        ).unclosed
}

/// Whether some script results make the target's template render with
/// exactly these missing keys.
pub open spec fn spec_render_missing_some(
    s: SettingModel,
    t: PathModel,
    src: Seq<char>,
    keys: Seq<Seq<char>>,
) -> bool {
    exists|results: Seq<Seq<(Seq<char>, ScriptValueModel)>>|
        {
            let rr = spec_render(spec_body(src), #[trigger] spec_target_text_map(s, t, results));
            &&& results.len() == spec_target_calls(s, t).len()
            &&& !rr.unclosed
            &&& rr.missing.len() > 0
            &&& rr.missing == keys
        }
}

/// Whether the reported template error really arises for the target: the
/// template is empty, or some script results make it render with an
/// unclosed placeholder or with exactly the reported missing keys.  For a
/// target with no script values the results are forced empty, so the error
/// is pinned exactly: such a target with a present, cleanly rendering
/// template cannot be reported in error.
pub open spec fn spec_template_err(
    s: SettingModel,
    t: PathModel,
    tv: Seq<(PathModel, Seq<char>)>,
    error: crate::template::Error,
) -> bool {
    match spec_find_template(tv, t) {
        None => false,
        Some(src) => match error {
            crate::template::Error::EmptyTemplateError(p) => src.len() == 0 && p@ == t,
            crate::template::Error::UnclosedPlaceholder { path, .. } => path@ == t
                && spec_render_unclosed_some(s, t, src),
            crate::template::Error::MissingKeys { path, keys } => path@ == t
                && spec_render_missing_some(s, t, src, keys.deep_view()),
        },
    }
}

/// Whether the reported apply error is truthful for the setting: the
/// missing template is a declared target with no supplied source; the
/// failed script is one the setting's targets call, at its resolved path;
/// the template error really arises for the reported target.
pub open spec fn spec_apply_err(
    s: SettingModel,
    tv: Seq<(PathModel, Seq<char>)>,
    sd: Seq<char>,
    e: Error,
) -> bool {
    match e {
        Error::MissingTemplate { target } => exists|i: int|
            0 <= i < s.targets.len() && target@ == #[trigger] s.targets[i].0 && spec_find_template(
                tv,
                target@,
            ) is None,
        Error::ScriptFailed { script } => spec_setting_script(s, sd, script@),
        Error::Template { target, error } => exists|i: int|
            0 <= i < s.targets.len() && target@ == #[trigger] s.targets[i].0 && spec_template_err(
                s,
                target@,
                tv,
                error,
            ),
    }
}

/// Whether some sequence of script results explains the staged pairs.
pub open spec fn spec_apply_some(
    s: SettingModel,
    tv: Seq<(PathModel, Seq<char>)>,
    staged: Seq<(Seq<char>, Seq<char>)>,
) -> bool {
    exists|results: Seq<Seq<Seq<(Seq<char>, ScriptValueModel)>>>|
        spec_apply_ok(s, tv, results, staged)
}

/// Every target staged, in declaration order, under some sequence of
/// script results.
pub open spec fn spec_apply_ok(
    s: SettingModel,
    tv: Seq<(PathModel, Seq<char>)>,
    results: Seq<Seq<Seq<(Seq<char>, ScriptValueModel)>>>,
    staged: Seq<(Seq<char>, Seq<char>)>,
) -> bool {
    &&& results.len() == s.targets.len()
    &&& staged.len() == s.targets.len()
    &&& forall|i: int|
        0 <= i < s.targets.len() ==> spec_target_ok(
            s,
            s.targets[i].0,
            tv,
            results[i],
            #[trigger] staged[i],
        )
}

/// The overlay reads only the first `n` flat entries.
proof fn lemma_overlay_prefix(
    lit: Map<Seq<char>, Seq<char>>,
    f1: Seq<(Seq<char>, Seq<char>)>,
    f2: Seq<(Seq<char>, Seq<char>)>,
    n: int,
)
    requires
        forall|j: int| 0 <= j < n ==> f1[j] == f2[j],
    ensures
        spec_overlay(lit, f1, n) == spec_overlay(lit, f2, n),
    decreases n,
{
    if n > 0 {
        lemma_overlay_prefix(lit, f1, f2, n - 1);
    }
}

/// The flattened results read only the first `n` result sequences.
proof fn lemma_flat_results_prefix(
    calls: Seq<ScriptCallModel>,
    r1: Seq<Seq<(Seq<char>, ScriptValueModel)>>,
    r2: Seq<Seq<(Seq<char>, ScriptValueModel)>>,
    n: int,
)
    requires
        forall|j: int| 0 <= j < n ==> r1[j] == r2[j],
    ensures
        spec_flat_results(calls, r1, n) == spec_flat_results(calls, r2, n),
    decreases n,
{
    if n > 0 {
        lemma_flat_results_prefix(calls, r1, r2, n - 1);
    }
}

/// Whether the table has an entry whose key equals `key`.
fn table_has_key(entries: &Vec<(String, Value)>, key: &str) -> (r: bool)
    ensures
        r == spec_table_has_key(view_value_entries(entries@), key@),
{
    let ghost dv = view_value_entries(entries@);
    let mut i: usize = 0;
    while i < entries.len()
        invariant
            i <= entries.len(),
            dv == view_value_entries(entries@),
            dv.len() == entries@.len(),
            forall|j: int| 0 <= j < i ==> dv[j].0 != key@,
        decreases entries.len() - i,
    {
        proof {
            assert(dv[i as int].0 == entries@[i as int].0@);
        }
        if crate::text::str_eq(entries[i].0.as_str(), key) {
            return true;
        }
        i = i + 1;
    }
    proof {
        if spec_table_has_key(dv, key@) {
            let w = choose|w: int| 0 <= w < dv.len() && dv[w].0 == key@;
            assert(false);
        }
    }
    false
}

/// Folds one table into the accumulator: entries whose key is new are
/// appended, in table order; keys already present keep their value.
fn add_table(acc: &mut Vec<(String, Value)>, table: &Vec<(String, Value)>)
    ensures
        view_value_entries(final(acc)@) == spec_add_table(
            view_value_entries(old(acc)@),
            view_value_entries(table@),
            table@.len() as int,
        ),
{
    let ghost acc0 = view_value_entries(old(acc)@);
    let ghost tv = view_value_entries(table@);
    let mut k: usize = 0;
    while k < table.len()
        invariant
            k <= table.len(),
            tv == view_value_entries(table@),
            tv.len() == table@.len(),
            view_value_entries(acc@) == spec_add_table(acc0, tv, k as int),
        decreases table.len() - k,
    {
        proof {
            assert(tv[k as int] == (table@[k as int].0@, view_value(table@[k as int].1)));
        }
        if !table_has_key(acc, table[k].0.as_str()) {
            let ghost prev = view_value_entries(acc@);
            acc.push((table[k].0.clone(), table[k].1.dup()));
            proof {
                assert(view_value_entries(acc@) =~~= prev.push(tv[k as int]));
            }
        }
        k = k + 1;
        proof {
            assert(view_value_entries(acc@) =~~= spec_add_table(acc0, tv, k as int));
        }
    }
}

/// An owned copy of a value table.
fn dup_table(table: &Vec<(String, Value)>) -> (r: Vec<(String, Value)>)
    ensures
        view_value_entries(r@) == view_value_entries(table@),
{
    let mut out: Vec<(String, Value)> = Vec::new();
    let mut i: usize = 0;
    while i < table.len()
        invariant
            i <= table.len(),
            out@.len() == i,
            forall|j: int|
                0 <= j < i ==> out@[j].0@ == table@[j].0@ && view_value(out@[j].1) == view_value(
                    table@[j].1,
                ),
        decreases table.len() - i,
    {
        out.push((table[i].0.clone(), table[i].1.dup()));
        i = i + 1;
    }
    proof {
        assert(view_value_entries(out@) =~~= view_value_entries(table@));
    }
    out
}

impl Setting {
    /// An owned copy of this setting.
    pub fn dup(&self) -> (r: Setting)
        ensures
            r@ == self@,
    {
        let mut targets: Vec<(FsPath, Vec<(String, Value)>)> = Vec::new();
        let mut i: usize = 0;
        while i < self.targets.len()
            invariant
                i <= self.targets.len(),
                targets@.len() == i,
                forall|j: int|
                    0 <= j < i ==> #[trigger] targets@[j].0@ == self.targets@[j].0@
                        && view_value_entries(targets@[j].1@) == view_value_entries(
                        self.targets@[j].1@,
                    ),
            decreases self.targets.len() - i,
        {
            targets.push((self.targets[i].0.dup(), dup_table(&self.targets[i].1)));
            i = i + 1;
        }
        let r = Setting {
            name: self.name.clone(),
            hooks: dup_hooks(&self.hooks),
            path: self.path.dup(),
            global: dup_table(&self.global),
            targets,
        };
        proof {
            assert(view_targets(r.targets@) =~~= view_targets(self.targets@));
            assert(r@ =~~= self@);
        }
        r
    }

    /// Builds a setting from parsed data.  Target paths are resolved
    /// against `templates_dir` (they stay as given when already absolute),
    /// mirroring how a setting file's relative target keys are read.
    pub fn new(
        name: String,
        hooks: Vec<Hook>,
        path: FsPath,
        global: Vec<(String, Value)>,
        targets: Vec<(FsPath, Vec<(String, Value)>)>,
        templates_dir: &FsPath,
    ) -> (r: Setting)
        requires
            templates_dir@.absolute,
        ensures
            r@.name == name@,
            r@.path == path@,
            r@.global == view_value_entries(global@),
            r@.hooks == view_hooks(hooks@),
            r@.targets.len() == targets@.len(),
            forall|i: int|
                0 <= i < targets@.len() ==> #[trigger] r@.targets[i] == (
                    crate::path::spec_force_absolute(targets@[i].0@, templates_dir@),
                    view_value_entries(targets@[i].1@),
                ),
    {
        let mut resolved: Vec<(FsPath, Vec<(String, Value)>)> = Vec::new();
        let ghost tv = targets@;
        let mut rest = targets;
        while rest.len() > 0
            invariant
                resolved@.len() + rest@.len() == tv.len(),
                rest@ == tv.skip(resolved@.len() as int),
                templates_dir@.absolute,
                forall|j: int|
                    0 <= j < resolved@.len() ==> #[trigger] view_targets(resolved@)[j] == (
                        crate::path::spec_force_absolute(tv[j].0@, templates_dir@),
                        view_value_entries(tv[j].1@),
                    ),
            decreases rest@.len(),
        {
            let ghost n = resolved@.len() as int;
            let (p, table) = rest.remove(0);
            proof {
                assert(tv.skip(n)[0] == tv[n]);
                assert(rest@ =~= tv.skip(n + 1));
            }
            let abs = crate::path::force_absolute(&p, templates_dir);
            let ghost before = resolved@;
            resolved.push((abs, table));
            proof {
                assert forall|j: int| 0 <= j < resolved@.len() implies #[trigger] view_targets(
                    resolved@,
                )[j] == (
                    crate::path::spec_force_absolute(tv[j].0@, templates_dir@),
                    view_value_entries(tv[j].1@),
                ) by {
                    assert(view_targets(resolved@)[j] == (resolved@[j].0@, view_value_entries(
                        resolved@[j].1@,
                    )));
                    if j < n {
                        assert(resolved@[j] == before[j]);
                        assert(view_targets(before)[j] == (before[j].0@, view_value_entries(
                            before[j].1@,
                        )));
                    } else {
                        assert(resolved@[j] == (abs, table));
                    }
                }
            }
        }
        Setting { name, hooks, path, global, targets: resolved }
    }

    /// The name of the setting.
    pub fn name(&self) -> (r: &String)
        ensures
            r@ == self@.name,
    {
        &self.name
    }

    /// The path of the setting file, its stable identity.
    pub fn path(&self) -> (r: &FsPath)
        ensures
            r@ == self@.path,
    {
        &self.path
    }

    /// The hooks.
    pub fn hooks(&self) -> (r: &Vec<Hook>)
        ensures
            view_hooks(r@) == self@.hooks,
    {
        &self.hooks
    }

    /// The paths of all declared targets, in declaration order.
    pub fn targets(&self) -> (r: Vec<FsPath>)
        ensures
            r@.len() == self@.targets.len(),
            forall|i: int| 0 <= i < r@.len() ==> #[trigger] r@[i]@ == self@.targets[i].0,
    {
        let mut out: Vec<FsPath> = Vec::new();
        let mut i: usize = 0;
        while i < self.targets.len()
            invariant
                i <= self.targets.len(),
                out@.len() == i,
                forall|j: int| 0 <= j < i ==> #[trigger] out@[j]@ == self@.targets[j].0,
            decreases self.targets.len() - i,
        {
            out.push(self.targets[i].0.dup());
            proof {
                assert(self@.targets[i as int].0 == self.targets@[i as int].0@);
            }
            i = i + 1;
        }
        out
    }

    /// The path of the target at position `i`.
    pub fn target_at(&self, i: usize) -> (r: &FsPath)
        requires
            i < self@.targets.len(),
        ensures
            r@ == self@.targets[i as int].0,
    {
        proof {
            assert(self@.targets[i as int] == (
                self.targets@[i as int].0@,
                view_value_entries(self.targets@[i as int].1@),
            ));
        }
        &self.targets[i].0
    }

    /// The number of declared targets.
    pub fn target_count(&self) -> (r: usize)
        ensures
            r == self@.targets.len(),
    {
        self.targets.len()
    }

    /// Composes the value map for a target.  Walking
    /// from the target path up to the root, every table declared for the
    /// current path contributes its entries whose keys are still absent, so
    /// the most specific table wins; at the root, the global table fills in
    /// the rest.  Where two tables declare the same path, the one declared
    /// earlier wins, a deterministic rule for a configuration that is best
    /// avoided.  The entries come back in insertion order.
    pub fn compose_map(&self, target: &FsPath) -> (r: Vec<(String, Value)>)
        ensures
            view_value_entries(r@) == spec_compose_entries(self@, target@),
    {
        let mut acc: Vec<(String, Value)> = Vec::new();
        let mut cur: FsPath = target.dup();
        proof {
            assert(view_value_entries(acc@) =~= Seq::<(Seq<char>, ValueModel)>::empty());
        }
        loop
            invariant
                spec_walk(view_value_entries(acc@), self@.targets, self@.global, cur@)
                    == spec_compose_entries(self@, target@),
            decreases cur@.parts.len(),
        {
            self.add_level(&mut acc, &cur);
            match cur.parent() {
                Some(p) => {
                    cur = p;
                },
                None => {
                    add_table(&mut acc, &self.global);
                    proof {
                        assert(view_value_entries(self.global@) == self@.global);
                    }
                    return acc;
                },
            }
        }
    }

    /// Splits the composed map for a target into what templating needs:
    /// the scalar values stringified, in composed order, and the script
    /// calls still to be evaluated, in composed order.
    pub fn compose_template_map(&self, target: &FsPath) -> (r: (
        Vec<(String, String)>,
        Vec<ScriptCall>,
    ))
        ensures
            ({
                let ce = spec_compose_entries(self@, target@);
                &&& r.0.deep_view() == spec_literals(ce, ce.len() as int)
                &&& view_script_calls(r.1@) == spec_calls(ce, ce.len() as int)
            }),
    {
        let composed = self.compose_map(target);
        let ghost ce = spec_compose_entries(self@, target@);
        let mut lits: Vec<(String, String)> = Vec::new();
        let mut calls: Vec<ScriptCall> = Vec::new();
        let mut i: usize = 0;
        proof {
            assert(ce.len() == composed@.len());
        }
        while i < composed.len()
            invariant
                i <= composed.len(),
                ce == view_value_entries(composed@),
                ce == spec_compose_entries(self@, target@),
                ce.len() == composed@.len(),
                lits.deep_view() == spec_literals(ce, i as int),
                view_script_calls(calls@) == spec_calls(ce, i as int),
            decreases composed.len() - i,
        {
            proof {
                assert(ce[i as int] == (composed@[i as int].0@, view_value(composed@[i as int].1)));
            }
            match composed[i].1.stringify() {
                Some(text) => {
                    let ghost before = lits.deep_view();
                    lits.push((composed[i].0.clone(), text));
                    proof {
                        assert(lits.deep_view() =~~= before.push(
                            (ce[i as int].0, spec_stringify(ce[i as int].1)),
                        ));
                        assert(lits.deep_view() =~~= spec_literals(ce, i + 1 as int));
                    }
                },
                None => {
                    let ghost beforec = view_script_calls(calls@);
                    match &composed[i].1 {
                        Value::Script { script, value } => {
                            calls.push(
                                ScriptCall {
                                    name: composed[i].0.clone(),
                                    script: script.clone(),
                                    value: value.dup(),
                                },
                            );
                            proof {
                                assert(view_script_calls(calls@) =~~= spec_calls(ce, i + 1 as int));
                            }
                        },
                        _ => {
                            proof {
                                assert(false);
                            }
                        },
                    }
                },
            }
            i = i + 1;
        }
        (lits, calls)
    }

    /// Applies the setting: for every declared target, in declaration
    /// order, composes the value map, evaluates each script value through
    /// the external engine, flattens and lays the results over the
    /// literals, renders the target's template, and stages the (output
    /// path, rendered text) pair.  Nothing is written here: every pair is
    /// staged in memory, so a failure at any target leaves nothing
    /// half-applied.  Errors: a script that fails to evaluate, a target
    /// with no supplied template, a template that is empty or renders with
    /// unknown or unclosed placeholders.
    pub fn apply(&self, templates: &Vec<(FsPath, String)>, scripts_dir: &str) -> (r: Result<
        Vec<(String, String)>,
        Error,
    >)
        ensures
            ({
                let tv = view_templates(templates@);
                match r {
                    Ok(staged) => spec_apply_some(self@, tv, staged.deep_view()),
                    Err(e) => spec_apply_err(self@, tv, scripts_dir@, e),
                }
            }),
    {
        let ghost tv = view_templates(templates@);
        let mut staged: Vec<(String, String)> = Vec::new();
        let ghost mut results_acc: Seq<Seq<Seq<(Seq<char>, ScriptValueModel)>>> = Seq::empty();
        let tn = self.target_count();
        let mut ti: usize = 0;
        while ti < tn
            invariant
                ti <= tn,
                tn == self@.targets.len(),
                tv == view_templates(templates@),
                staged@.len() == ti,
                results_acc.len() == ti,
                forall|i: int|
                    0 <= i < ti ==> spec_target_ok(
                        self@,
                        self@.targets[i].0,
                        tv,
                        results_acc[i],
                        #[trigger] staged.deep_view()[i],
                    ),
            decreases tn - ti,
        {
            let target = self.target_at(ti);
            let (lits, calls) = self.compose_template_map(target);
            let ghost ce = spec_compose_entries(self@, target@);
            let ghost callsv = spec_calls(ce, ce.len() as int);
            let ghost lit_map = seq_first_map(lits.deep_view());
            proof {
                assert(view_script_calls(calls@) == callsv);
                assert(callsv.len() == calls@.len());
            }
            let mut script_vec: Vec<(String, String)> = Vec::new();
            let ghost mut res_acc: Seq<Seq<(Seq<char>, ScriptValueModel)>> = Seq::empty();
            let ghost mut flat_acc: Seq<(Seq<char>, Seq<char>)> = Seq::empty();
            let cn = calls.len();
            let mut ci: usize = 0;
            while ci < cn
                invariant
                    ci <= cn,
                    cn == calls@.len(),
                    ti < tn,
                    tn == self@.targets.len(),
                    target@ == self@.targets[ti as int].0,
                    ce == spec_compose_entries(self@, target@),
                    callsv == spec_calls(ce, ce.len() as int),
                    callsv == view_script_calls(calls@),
                    callsv.len() == calls@.len(),
                    lit_map == seq_first_map(lits.deep_view()),
                    res_acc.len() == ci,
                    flat_acc == spec_flat_results(callsv, res_acc, ci as int),
                    seq_first_map(script_vec.deep_view()) == spec_overlay(
                        lit_map,
                        flat_acc,
                        flat_acc.len() as int,
                    ),
                decreases cn - ci,
            {
                proof {
                    assert(callsv[ci as int] == view_script_call(calls@[ci as int]));
                }
                let resolved = resolve_script_path(scripts_dir, &calls[ci].script);
                match eval_rhai(&resolved, &calls[ci].value) {
                    None => {
                        proof {
                            assert(spec_target_calls(self@, self@.targets[ti as int].0)
                                == callsv);
                            assert(resolved@ == spec_resolve_script(
                                scripts_dir@,
                                spec_target_calls(self@, self@.targets[ti as int].0)[
                                    ci as int].script,
                            ));
                        }
                        return Err(Error::ScriptFailed { script: resolved });
                    },
                    Some(res) => {
                        let table = ScriptValue::Table(res);
                        let flat = flatten(calls[ci].name.as_str(), &table);
                        let ghost rv = view_script_entries(table->Table_0@);
                        proof {
                            assert(view_script_value(table) == ScriptValueModel::Table(rv));
                            assert(flat.deep_view() == spec_flatten(
                                callsv[ci as int].name,
                                ScriptValueModel::Table(rv),
                            ));
                        }
                        let fd = flat.len();
                        proof {
                            lemma_overlay_prefix(
                                lit_map,
                                flat_acc,
                                flat_acc + flat.deep_view(),
                                flat_acc.len() as int,
                            );
                        }
                        let mut fi: usize = 0;
                        while fi < fd
                            invariant
                                fi <= fd,
                                fd == flat@.len(),
                                flat.deep_view().len() == flat@.len(),
                                lit_map == seq_first_map(lits.deep_view()),
                                seq_first_map(script_vec.deep_view()) == spec_overlay(
                                    lit_map,
                                    flat_acc + flat.deep_view(),
                                    flat_acc.len() + fi,
                                ),
                            decreases fd - fi,
                        {
                            let ghost fe = flat.deep_view()[fi as int];
                            proof {
                                assert(fe == (flat@[fi as int].0@, flat@[fi as int].1@));
                                assert((flat_acc + flat.deep_view())[flat_acc.len() + fi] == fe);
                            }
                            if !map_contains(&lits, flat[fi].0.as_str()) {
                                map_set(
                                    &mut script_vec,
                                    flat[fi].0.clone(),
                                    flat[fi].1.clone(),
                                );
                            }
                            fi = fi + 1;
                        }
                        proof {
                            let old_flat = flat_acc;
                            let old_res = res_acc;
                            res_acc = res_acc.push(rv);
                            flat_acc = flat_acc + flat.deep_view();
                            lemma_flat_results_prefix(callsv, old_res, res_acc, ci as int);
                            assert(res_acc[ci as int] == rv);
                            assert(flat_acc =~= spec_flat_results(callsv, res_acc, ci + 1));
                            lemma_overlay_prefix(
                                lit_map,
                                old_flat + flat.deep_view(),
                                flat_acc,
                                flat_acc.len() as int,
                            );
                        }
                        ci = ci + 1;
                    },
                }
            }
            let src = match find_template(templates, target) {
                Some(src) => src,
                None => {
                    return Err(Error::MissingTemplate { target: target.dup() });
                },
            };
            let mut merged = lits;
            let ghost lits_dv = merged.deep_view();
            let ghost script_dv = script_vec.deep_view();
            merged.append(&mut script_vec);
            proof {
                assert(merged.deep_view() =~~= lits_dv + script_dv);
                lemma_first_map_concat(lits_dv, script_dv);
                assert(res_acc.len() == callsv.len());
                assert(seq_first_map(merged.deep_view()) == spec_target_text_map(
                    self@,
                    target@,
                    res_acc,
                ));
            }
            let tpl = match Template::new(target.dup(), src.as_str(), merged) {
                Ok(tpl) => tpl,
                Err(e) => {
                    proof {
                        assert(spec_template_err(self@, self@.targets[ti as int].0, tv, e));
                    }
                    return Err(Error::Template { target: target.dup(), error: e });
                },
            };
            match tpl.far() {
                Ok(text) => {
                    let ghost staged_before = staged.deep_view();
                    staged.push((tpl.output().clone(), text));
                    proof {
                        results_acc = results_acc.push(res_acc);
                        assert(staged.deep_view() =~~= staged_before.push(
                            (tpl@.output, staged.deep_view().last().1),
                        ));
                        assert(spec_target_ok(
                            self@,
                            self@.targets[ti as int].0,
                            tv,
                            res_acc,
                            staged.deep_view()[ti as int],
                        ));
                        assert forall|i: int| 0 <= i < ti + 1 implies spec_target_ok(
                            self@,
                            self@.targets[i].0,
                            tv,
                            results_acc[i],
                            #[trigger] staged.deep_view()[i],
                        ) by {
                            if i < ti {
                                assert(staged.deep_view()[i] == staged_before[i]);
                            }
                        }
                    }
                },
                Err(e) => {
                    proof {
                        let t = self@.targets[ti as int].0;
                        assert(spec_target_calls(self@, t) == callsv);
                        assert(res_acc.len() == spec_target_calls(self@, t).len());
                        match &e {
                            crate::template::Error::UnclosedPlaceholder { .. } => {
                                assert(spec_render(
                                    spec_body(src@),
                                    spec_target_text_map(self@, t, res_acc),
                                ).unclosed);
                                assert(spec_render_unclosed_some(self@, t, src@));
                            },
                            crate::template::Error::MissingKeys { path, keys } => {
                                assert(spec_render_missing_some(self@, t, src@, keys.deep_view()));
                            },
                            _ => {},
                        }
                        assert(spec_template_err(self@, t, tv, e));
                    }
                    return Err(Error::Template { target: target.dup(), error: e });
                },
            }
            ti = ti + 1;
        }
        proof {
            assert(staged.deep_view().len() == staged@.len());
            assert(spec_apply_ok(self@, tv, results_acc, staged.deep_view()));
            assert(spec_apply_ok(
                self@,
                view_templates(templates@),
                results_acc,
                staged.deep_view(),
            ));
            assert(spec_apply_some(self@, view_templates(templates@), staged.deep_view()));
        }
        Ok(staged)
    }

    /// Folds in every table declared for path `p`, in declaration order.
    fn add_level(&self, acc: &mut Vec<(String, Value)>, p: &FsPath)
        ensures
            view_value_entries(final(acc)@) == spec_add_level(
                view_value_entries(old(acc)@),
                self@.targets,
                p@,
                self@.targets.len() as int,
            ),
    {
        let ghost acc0 = view_value_entries(old(acc)@);
        let ghost tv = self@.targets;
        let mut ti: usize = 0;
        while ti < self.targets.len()
            invariant
                ti <= self.targets.len(),
                tv == self@.targets,
                tv.len() == self.targets@.len(),
                view_value_entries(acc@) == spec_add_level(acc0, tv, p@, ti as int),
            decreases self.targets.len() - ti,
        {
            proof {
                assert(tv[ti as int] == (
                    self.targets@[ti as int].0@,
                    view_value_entries(self.targets@[ti as int].1@),
                ));
            }
            if self.targets[ti].0.matches(p) {
                add_table(acc, &self.targets[ti].1);
            }
            ti = ti + 1;
        }
    }
}

/// The entries of every table the setting declares for path `p` among its
/// first `n` targets, run together in declaration order.
pub open spec fn spec_level_concat(
    targets: Seq<(PathModel, Seq<(Seq<char>, ValueModel)>)>,
    p: PathModel,
    n: int,
) -> Seq<(Seq<char>, ValueModel)>
    decreases n,
{
    if n <= 0 {
        Seq::empty()
    } else if targets[n - 1].0 == p {
        spec_level_concat(targets, p, n - 1) + targets[n - 1].1
    } else {
        spec_level_concat(targets, p, n - 1)
    }
}

/// The value the walk finds for key `k` from path `p` down: the first
/// level whose tables carry the key decides it (first pair wins within the
/// level); at the root the global table is the last chance.
pub open spec fn spec_lookup(
    targets: Seq<(PathModel, Seq<(Seq<char>, ValueModel)>)>,
    global: Seq<(Seq<char>, ValueModel)>,
    p: PathModel,
    k: Seq<char>,
) -> Option<ValueModel>
    decreases p.parts.len(),
{
    let lc = spec_level_concat(targets, p, targets.len() as int);
    if seq_has_key(lc, k) {
        Some(seq_first_map(lc)[k])
    } else if p.parts.len() == 0 {
        if seq_has_key(global, k) {
            Some(seq_first_map(global)[k])
        } else {
            None
        }
    } else {
        spec_lookup(targets, global, spec_parent(p), k)
    }
}

/// The two key predicates coincide.
proof fn lemma_table_key_bridge(t: Seq<(Seq<char>, ValueModel)>, k: Seq<char>)
    ensures
        spec_table_has_key(t, k) <==> seq_has_key(t, k),
{
    if spec_table_has_key(t, k) {
        let i = choose|i: int| 0 <= i < t.len() && t[i].0 == k;
        assert(seq_has_key(t, k));
    }
    if seq_has_key(t, k) {
        let i = choose|i: int| 0 <= i < t.len() && t[i].0 == k;
        assert(spec_table_has_key(t, k));
    }
}

/// What folding one table in does at key `k`: a key already accumulated
/// keeps its value; a new key takes the first value the table gives it.
proof fn lemma_add_table_k(
    acc: Seq<(Seq<char>, ValueModel)>,
    table: Seq<(Seq<char>, ValueModel)>,
    n: int,
    k: Seq<char>,
)
    requires
        0 <= n <= table.len(),
    ensures
        seq_has_key(spec_add_table(acc, table, n), k) <==> (seq_has_key(acc, k) || seq_has_key(
            table.take(n),
            k,
        )),
        seq_has_key(acc, k) ==> seq_first_map(spec_add_table(acc, table, n))[k] == seq_first_map(
            acc,
        )[k],
        !seq_has_key(acc, k) && seq_has_key(table.take(n), k) ==> seq_first_map(
            spec_add_table(acc, table, n),
        )[k] == seq_first_map(table.take(n))[k],
    decreases n,
{
    if n <= 0 {
        assert(table.take(n).len() == 0);
        if seq_has_key(table.take(n), k) {
            let i = choose|i: int| 0 <= i < table.take(n).len() && table.take(n)[i].0 == k;
            assert(false);
        }
    } else {
        lemma_add_table_k(acc, table, n - 1, k);
        let a1 = spec_add_table(acc, table, n - 1);
        let e = table[n - 1];
        let tp = table.take(n - 1);
        assert(table.take(n) =~= tp.push(e));
        assert(e == (e.0, e.1));
        lemma_push_key(tp, e, k);
        lemma_first_map_push_any(tp, e.0, e.1);
        lemma_table_key_bridge(a1, e.0);
        lemma_add_table_k(acc, table, n - 1, e.0);
        if spec_table_has_key(a1, e.0) {
            assert(spec_add_table(acc, table, n) == a1);
            if e.0 == k {
                if !seq_has_key(acc, k) && seq_has_key(table.take(n), k) {
                    assert(seq_has_key(tp, k) || seq_has_key(acc, k));
                }
            }
        } else {
            assert(spec_add_table(acc, table, n) == a1.push(e));
            lemma_push_key(a1, e, k);
            lemma_first_map_push_any(a1, e.0, e.1);
            if e.0 == k {
                assert(!seq_has_key(acc, k));
                assert(!seq_has_key(tp, k));
            }
        }
    }
}

/// What folding one level in does at key `k`: a key already accumulated
/// keeps its value; a new key takes what the level's tables, run together,
/// first give it.
proof fn lemma_add_level_k(
    acc: Seq<(Seq<char>, ValueModel)>,
    targets: Seq<(PathModel, Seq<(Seq<char>, ValueModel)>)>,
    p: PathModel,
    n: int,
    k: Seq<char>,
)
    requires
        0 <= n <= targets.len(),
    ensures
        seq_has_key(spec_add_level(acc, targets, p, n), k) <==> (seq_has_key(acc, k)
            || seq_has_key(spec_level_concat(targets, p, n), k)),
        seq_has_key(acc, k) ==> seq_first_map(spec_add_level(acc, targets, p, n))[k]
            == seq_first_map(acc)[k],
        !seq_has_key(acc, k) && seq_has_key(spec_level_concat(targets, p, n), k) ==> seq_first_map(
            spec_add_level(acc, targets, p, n),
        )[k] == seq_first_map(spec_level_concat(targets, p, n))[k],
    decreases n,
{
    if n <= 0 {
        if seq_has_key(spec_level_concat(targets, p, n), k) {
            let i = choose|i: int|
                0 <= i < spec_level_concat(targets, p, n).len() && spec_level_concat(
                    targets,
                    p,
                    n,
                )[i].0 == k;
            assert(false);
        }
    } else {
        lemma_add_level_k(acc, targets, p, n - 1, k);
        let a1 = spec_add_level(acc, targets, p, n - 1);
        let lc1 = spec_level_concat(targets, p, n - 1);
        if targets[n - 1].0 == p {
            let tb = targets[n - 1].1;
            assert(tb.take(tb.len() as int) =~= tb);
            lemma_add_table_k(a1, tb, tb.len() as int, k);
            lemma_concat_key(lc1, tb, k);
        }
    }
}

/// What the walk does at key `k`: a key already accumulated keeps its
/// value; a new key takes what the lookup from `p` finds.
proof fn lemma_walk_k(
    acc: Seq<(Seq<char>, ValueModel)>,
    targets: Seq<(PathModel, Seq<(Seq<char>, ValueModel)>)>,
    global: Seq<(Seq<char>, ValueModel)>,
    p: PathModel,
    k: Seq<char>,
)
    ensures
        seq_has_key(spec_walk(acc, targets, global, p), k) <==> (seq_has_key(acc, k)
            || spec_lookup(targets, global, p, k) is Some),
        seq_has_key(acc, k) ==> seq_first_map(spec_walk(acc, targets, global, p))[k]
            == seq_first_map(acc)[k],
        !seq_has_key(acc, k) ==> (spec_lookup(targets, global, p, k) matches Some(v)
            ==> seq_first_map(spec_walk(acc, targets, global, p))[k] == v),
    decreases p.parts.len(),
{
    let acc2 = spec_add_level(acc, targets, p, targets.len() as int);
    let lc = spec_level_concat(targets, p, targets.len() as int);
    lemma_add_level_k(acc, targets, p, targets.len() as int, k);
    if p.parts.len() == 0 {
        assert(global.take(global.len() as int) =~= global);
        lemma_add_table_k(acc2, global, global.len() as int, k);
    } else {
        lemma_walk_k(acc2, targets, global, spec_parent(p), k);
    }
}

/// The composed entries for a target bind exactly the keys the lookup
/// finds on the walk from the target to the root, each to the value of the
/// nearest level that defines it (the global table last).  This is the map
/// meaning of `compose_map`.
pub proof fn lemma_compose_lookup(s: SettingModel, t: PathModel, k: Seq<char>)
    ensures
        seq_has_key(spec_compose_entries(s, t), k) <==> spec_lookup(
            s.targets,
            s.global,
            t,
            k,
        ) is Some,
        spec_lookup(s.targets, s.global, t, k) matches Some(v) ==> seq_first_map(
            spec_compose_entries(s, t),
        )[k] == v,
{
    let acc = Seq::<(Seq<char>, ValueModel)>::empty();
    if seq_has_key(acc, k) {
        let i = choose|i: int| 0 <= i < acc.len() && acc[i].0 == k;
        assert(false);
    }
    lemma_walk_k(acc, s.targets, s.global, t, k);
}

/// The ancestor of `t` that is `d` steps up.
pub open spec fn spec_ancestor(t: PathModel, d: int) -> PathModel {
    PathModel { absolute: t.absolute, parts: t.parts.take(t.parts.len() - d) }
}

/// The lookup finds the value of level `d` when that level defines the key
/// and no closer level does.
proof fn lemma_lookup_at_level(
    targets: Seq<(PathModel, Seq<(Seq<char>, ValueModel)>)>,
    global: Seq<(Seq<char>, ValueModel)>,
    t: PathModel,
    k: Seq<char>,
    d: int,
)
    requires
        0 <= d <= t.parts.len(),
        seq_has_key(spec_level_concat(targets, spec_ancestor(t, d), targets.len() as int), k),
        forall|d2: int|
            0 <= d2 < d ==> !seq_has_key(
                spec_level_concat(targets, #[trigger] spec_ancestor(t, d2), targets.len() as int),
                k,
            ),
    ensures
        spec_lookup(targets, global, t, k) == Some(
            seq_first_map(spec_level_concat(targets, spec_ancestor(t, d), targets.len() as int))[k],
        ),
    decreases d,
{
    if d == 0 {
        assert(spec_ancestor(t, 0).parts =~= t.parts);
        assert(spec_ancestor(t, 0) =~= t);
    } else {
        assert(spec_ancestor(t, 0).parts =~= t.parts);
        assert(spec_ancestor(t, 0) =~= t);
        assert(!seq_has_key(spec_level_concat(targets, t, targets.len() as int), k));
        let pp = spec_parent(t);
        assert(pp.parts =~= t.parts.take(t.parts.len() - 1));
        assert forall|d2: int| 0 <= d2 <= pp.parts.len() implies #[trigger] spec_ancestor(pp, d2)
            =~= spec_ancestor(t, d2 + 1) by {
            assert(spec_ancestor(pp, d2).parts =~= t.parts.take(t.parts.len() - (d2 + 1)));
        }
        assert(spec_ancestor(pp, d - 1) =~= spec_ancestor(t, d));
        assert forall|d2: int| 0 <= d2 < d - 1 implies !seq_has_key(
            spec_level_concat(targets, #[trigger] spec_ancestor(pp, d2), targets.len() as int),
            k,
        ) by {
            assert(spec_ancestor(pp, d2) =~= spec_ancestor(t, d2 + 1));
            assert(!seq_has_key(
                spec_level_concat(targets, spec_ancestor(t, d2 + 1), targets.len() as int),
                k,
            ));
        }
        lemma_lookup_at_level(targets, global, pp, k, d - 1);
    }
}

/// Specificity precedence: when the tables `d` steps up the walk define a
/// key and no closer level does, the composed map binds the key to that
/// level's value — never to a farther ancestor's.
pub proof fn lemma_compose_specificity(s: SettingModel, t: PathModel, k: Seq<char>, d: int)
    requires
        0 <= d <= t.parts.len(),
        seq_has_key(spec_level_concat(s.targets, spec_ancestor(t, d), s.targets.len() as int), k),
        forall|d2: int|
            0 <= d2 < d ==> !seq_has_key(
                spec_level_concat(
                    s.targets,
                    #[trigger] spec_ancestor(t, d2),
                    s.targets.len() as int,
                ),
                k,
            ),
    ensures
        seq_has_key(spec_compose_entries(s, t), k),
        seq_first_map(spec_compose_entries(s, t))[k] == seq_first_map(
            spec_level_concat(s.targets, spec_ancestor(t, d), s.targets.len() as int),
        )[k],
{
    lemma_lookup_at_level(s.targets, s.global, t, k, d);
    lemma_compose_lookup(s, t, k);
}

/// With no targets the lookup falls through to the global table.
proof fn lemma_lookup_no_targets(
    targets: Seq<(PathModel, Seq<(Seq<char>, ValueModel)>)>,
    global: Seq<(Seq<char>, ValueModel)>,
    p: PathModel,
    k: Seq<char>,
)
    requires
        targets.len() == 0,
    ensures
        spec_lookup(targets, global, p, k) == if seq_has_key(global, k) {
            Some(seq_first_map(global)[k])
        } else {
            None
        },
    decreases p.parts.len(),
{
    let lc = spec_level_concat(targets, p, targets.len() as int);
    if seq_has_key(lc, k) {
        let i = choose|i: int| 0 <= i < lc.len() && lc[i].0 == k;
        assert(false);
    }
    if p.parts.len() > 0 {
        lemma_lookup_no_targets(targets, global, spec_parent(p), k);
    }
}

/// A setting with only a global table and no path tables composes to the
/// global table for every target.
pub proof fn lemma_compose_global_only(s: SettingModel, t: PathModel)
    requires
        s.targets.len() == 0,
    ensures
        seq_first_map(spec_compose_entries(s, t)) == seq_first_map(s.global),
{
    let ce = spec_compose_entries(s, t);
    assert forall|k: Seq<char>|
        #[trigger] seq_first_map(ce).dom().contains(k) == seq_first_map(s.global).dom().contains(
            k,
        ) && (seq_first_map(s.global).dom().contains(k) ==> seq_first_map(ce)[k] == seq_first_map(
            s.global,
        )[k]) by {
        lemma_compose_lookup(s, t, k);
        lemma_lookup_no_targets(s.targets, s.global, t, k);
        lemma_first_map_dom(ce, k);
        lemma_first_map_dom(s.global, k);
    }
    assert(seq_first_map(ce).dom() =~= seq_first_map(s.global).dom());
    assert(seq_first_map(ce) =~= seq_first_map(s.global));
}

/// Whether no two entries share a key.
pub open spec fn spec_distinct_keys(s: Seq<(Seq<char>, ValueModel)>) -> bool {
    forall|i: int, j: int| 0 <= i < j < s.len() ==> #[trigger] s[i].0 != #[trigger] s[j].0
}

/// Folding a table in keeps keys pairwise distinct: an entry is only ever
/// appended when its key is absent.
proof fn lemma_add_table_distinct(
    acc: Seq<(Seq<char>, ValueModel)>,
    table: Seq<(Seq<char>, ValueModel)>,
    n: int,
)
    requires
        spec_distinct_keys(acc),
    ensures
        spec_distinct_keys(spec_add_table(acc, table, n)),
    decreases n,
{
    if n > 0 {
        lemma_add_table_distinct(acc, table, n - 1);
        let a1 = spec_add_table(acc, table, n - 1);
        if !spec_table_has_key(a1, table[n - 1].0) {
            let a2 = a1.push(table[n - 1]);
            assert forall|i: int, j: int| 0 <= i < j < a2.len() implies #[trigger] a2[i].0
                != #[trigger] a2[j].0 by {
                if j == a1.len() {
                    if a2[i].0 == a2[j].0 {
                        assert(a1[i].0 == table[n - 1].0);
                        assert(spec_table_has_key(a1, table[n - 1].0));
                    }
                } else {
                    assert(a2[i] == a1[i] && a2[j] == a1[j]);
                }
            }
        }
    }
}

/// Folding a level in keeps keys pairwise distinct.
proof fn lemma_add_level_distinct(
    acc: Seq<(Seq<char>, ValueModel)>,
    targets: Seq<(PathModel, Seq<(Seq<char>, ValueModel)>)>,
    p: PathModel,
    n: int,
)
    requires
        spec_distinct_keys(acc),
    ensures
        spec_distinct_keys(spec_add_level(acc, targets, p, n)),
    decreases n,
{
    if n > 0 {
        lemma_add_level_distinct(acc, targets, p, n - 1);
        if targets[n - 1].0 == p {
            lemma_add_table_distinct(
                spec_add_level(acc, targets, p, n - 1),
                targets[n - 1].1,
                targets[n - 1].1.len() as int,
            );
        }
    }
}

/// The walk keeps keys pairwise distinct.
proof fn lemma_walk_distinct(
    acc: Seq<(Seq<char>, ValueModel)>,
    targets: Seq<(PathModel, Seq<(Seq<char>, ValueModel)>)>,
    global: Seq<(Seq<char>, ValueModel)>,
    p: PathModel,
)
    requires
        spec_distinct_keys(acc),
    ensures
        spec_distinct_keys(spec_walk(acc, targets, global, p)),
    decreases p.parts.len(),
{
    let acc2 = spec_add_level(acc, targets, p, targets.len() as int);
    lemma_add_level_distinct(acc, targets, p, targets.len() as int);
    if p.parts.len() == 0 {
        lemma_add_table_distinct(acc2, global, global.len() as int);
    } else {
        lemma_walk_distinct(acc2, targets, global, spec_parent(p));
    }
}

/// Composition never yields two entries with the same key: the composed
/// entries are a map written out as a list.
pub proof fn lemma_compose_distinct(s: SettingModel, t: PathModel)
    ensures
        spec_distinct_keys(spec_compose_entries(s, t)),
{
    lemma_walk_distinct(Seq::empty(), s.targets, s.global, t);
}

/// Applying is deterministic/// Applying is deterministic: with the same setting, the same templates
/// and the same script results, the staged pairs are identical, byte for
/// byte.  Applying twice with no source changes writes the same files.
pub proof fn lemma_apply_deterministic(
    s: SettingModel,
    tv: Seq<(PathModel, Seq<char>)>,
    results: Seq<Seq<Seq<(Seq<char>, ScriptValueModel)>>>,
    staged1: Seq<(Seq<char>, Seq<char>)>,
    staged2: Seq<(Seq<char>, Seq<char>)>,
)
    requires
        spec_apply_ok(s, tv, results, staged1),
        spec_apply_ok(s, tv, results, staged2),
    ensures
        staged1 == staged2,
{
    assert forall|i: int| 0 <= i < staged1.len() implies staged1[i] == staged2[i] by {
        assert(spec_target_ok(s, s.targets[i].0, tv, results[i], staged1[i]));
        assert(spec_target_ok(s, s.targets[i].0, tv, results[i], staged2[i]));
    }
    assert(staged1 =~= staged2);
}

} // verus!
