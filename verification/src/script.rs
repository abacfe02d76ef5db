//! Script values: the tree-shaped data handed to the external script engine
//! and returned by it.  A returned tree is flattened into dot-separated
//! string entries before it is merged into a template map.

use crate::text::{
    bool_to_string, i64_to_string, spec_bool_str, spec_int_dec, spec_nat_dec, usize_to_string,
};
use vstd::prelude::*;

verus! {

/// A value passed into or returned by a script: a scalar, an ordered array,
/// or a table of named entries.  A float is carried as its decimal rendering,
/// which is all the templating logic ever reads of it.
#[derive(Debug)]
pub enum ScriptValue {
    Boolean(bool),
    Integer(i64),
    Float(String),
    Text(String),
    Array(Vec<ScriptValue>),
    Table(Vec<(String, ScriptValue)>),
}

/// Mathematical model of a `ScriptValue`.
#[verifier::ext_equal]
pub enum ScriptValueModel {
    Boolean(bool),
    Integer(int),
    Float(Seq<char>),
    Text(Seq<char>),
    Array(Seq<ScriptValueModel>),
    Table(Seq<(Seq<char>, ScriptValueModel)>),
}

/// The model of a script value.
pub open spec fn view_script_value(v: ScriptValue) -> ScriptValueModel
    decreases v,
    via view_script_value_dec
{
    match v {
        ScriptValue::Boolean(b) => ScriptValueModel::Boolean(b),
        ScriptValue::Integer(i) => ScriptValueModel::Integer(i as int),
        ScriptValue::Float(s) => ScriptValueModel::Float(s@),
        ScriptValue::Text(s) => ScriptValueModel::Text(s@),
        ScriptValue::Array(elems) => ScriptValueModel::Array(view_script_vec(elems@)),
        ScriptValue::Table(entries) => ScriptValueModel::Table(view_script_entries(entries@)),
    }
}

#[via_fn]
proof fn view_script_value_dec(v: ScriptValue) {
    match v {
        ScriptValue::Array(elems) => {
            assert(decreases_to!(v => elems));
            assert(decreases_to!(elems => elems@));
        },
        ScriptValue::Table(entries) => {
            assert(decreases_to!(v => entries));
            assert(decreases_to!(entries => entries@));
        },
        _ => {},
    }
}

/// The model of a sequence of script values.
pub open spec fn view_script_vec(s: Seq<ScriptValue>) -> Seq<ScriptValueModel>
    decreases s,
    via view_script_vec_dec
{
    if s.len() == 0 {
        Seq::empty()
    } else {
        seq![view_script_value(s[0])] + view_script_vec(s.drop_first())
    }
}

#[via_fn]
proof fn view_script_vec_dec(s: Seq<ScriptValue>) {
    if s.len() != 0 {
        assert(decreases_to!(s => s[0]));
        assert(decreases_to!(s => s.subrange(1, s.len() as int)));
    }
}

/// The model of a sequence of named script entries, as a script table or a
/// script engine result is held.
pub open spec fn view_script_entries(entries: Seq<(String, ScriptValue)>) -> Seq<
    (Seq<char>, ScriptValueModel),
>
    decreases entries,
    via view_script_entries_dec
{
    if entries.len() == 0 {
        Seq::empty()
    } else {
        seq![(entries[0].0@, view_script_value(entries[0].1))] + view_script_entries(
            entries.drop_first(),
        )
    }
}

#[via_fn]
proof fn view_script_entries_dec(entries: Seq<(String, ScriptValue)>) {
    if entries.len() != 0 {
        assert(decreases_to!(entries => entries[0].1));
        assert(decreases_to!(entries => entries.subrange(1, entries.len() as int)));
    }
}

/// The model of a sequence of script values, element by element.
pub proof fn lemma_view_script_vec(s: Seq<ScriptValue>)
    ensures
        view_script_vec(s).len() == s.len(),
        forall|i: int| 0 <= i < s.len() ==> view_script_vec(s)[i] == view_script_value(s[i]),
    decreases s.len(),
{
    if s.len() != 0 {
        lemma_view_script_vec(s.drop_first());
    }
}

/// The model of a sequence of named script entries, element by element.
pub proof fn lemma_view_script_entries(entries: Seq<(String, ScriptValue)>)
    ensures
        view_script_entries(entries).len() == entries.len(),
        forall|i: int|
            0 <= i < entries.len() ==> view_script_entries(entries)[i] == (
                entries[i].0@,
                view_script_value(entries[i].1),
            ),
    decreases entries.len(),
{
    if entries.len() != 0 {
        lemma_view_script_entries(entries.drop_first());
    }
}

impl ScriptValue {
    /// An owned copy of this value.
    pub fn dup(&self) -> (r: ScriptValue)
        ensures
            view_script_value(r) == view_script_value(*self),
        decreases *self,
    {
        match self {
            ScriptValue::Boolean(b) => ScriptValue::Boolean(*b),
            ScriptValue::Integer(i) => ScriptValue::Integer(*i),
            ScriptValue::Float(s) => ScriptValue::Float(s.clone()),
            ScriptValue::Text(s) => ScriptValue::Text(s.clone()),
            ScriptValue::Array(elems) => {
                let out = dup_script_vec(elems);
                proof {
                    lemma_view_script_vec(elems@);
                    lemma_view_script_vec(out@);
                    assert(view_script_vec(out@) =~~= view_script_vec(elems@));
                    assert(*self == ScriptValue::Array(*elems));
                }
                let r = ScriptValue::Array(out);
                proof {
                    assert(view_script_value(r) == view_script_value(*self));
                }
                r
            },
            ScriptValue::Table(entries) => {
                let out = dup_script_entries(entries);
                proof {
                    lemma_view_script_entries(entries@);
                    lemma_view_script_entries(out@);
                    assert(view_script_entries(out@) =~~= view_script_entries(entries@));
                    assert(*self == ScriptValue::Table(*entries));
                }
                let r = ScriptValue::Table(out);
                proof {
                    assert(view_script_value(r) == view_script_value(*self));
                }
                r
            },
        }
    }
}

/// An owned copy of a vector of script values.
fn dup_script_vec(elems: &Vec<ScriptValue>) -> (r: Vec<ScriptValue>)
    ensures
        r@.len() == elems@.len(),
        forall|j: int|
            0 <= j < elems@.len() ==> view_script_value(r@[j]) == view_script_value(elems@[j]),
    decreases elems@,
{
    let mut out: Vec<ScriptValue> = Vec::new();
    let mut i: usize = 0;
    while i < elems.len()
        invariant
            i <= elems.len(),
            out@.len() == i,
            forall|j: int| 0 <= j < i ==> view_script_value(out@[j]) == view_script_value(elems@[j]),
        decreases elems.len() - i,
    {
        proof {
            assert(decreases_to!(elems@ => elems@[i as int]));
        }
        out.push(elems[i].dup());
        i = i + 1;
    }
    out
}

/// An owned copy of a vector of named script entries.
fn dup_script_entries(entries: &Vec<(String, ScriptValue)>) -> (r: Vec<(String, ScriptValue)>)
    ensures
        r@.len() == entries@.len(),
        forall|j: int|
            0 <= j < entries@.len() ==> r@[j].0@ == entries@[j].0@ && view_script_value(r@[j].1)
                == view_script_value(entries@[j].1),
    decreases entries@,
{
    let mut out: Vec<(String, ScriptValue)> = Vec::new();
    let mut i: usize = 0;
    while i < entries.len()
        invariant
            i <= entries.len(),
            out@.len() == i,
            forall|j: int|
                0 <= j < i ==> out@[j].0@ == entries@[j].0@ && view_script_value(out@[j].1)
                    == view_script_value(entries@[j].1),
        decreases entries.len() - i,
    {
        proof {
            assert(decreases_to!(entries@ => entries@[i as int].1));
        }
        out.push((entries[i].0.clone(), entries[i].1.dup()));
        i = i + 1;
    }
    out
}

/// The text a scalar script value flattens to; an array or table has no
/// direct text, its elements are flattened instead.
pub open spec fn spec_stringify_script(v: ScriptValueModel) -> Seq<char> {
    match v {
        ScriptValueModel::Boolean(b) => spec_bool_str(b),
        ScriptValueModel::Integer(i) => spec_int_dec(i),
        ScriptValueModel::Float(s) => s,
        ScriptValueModel::Text(s) => s,
        ScriptValueModel::Array(_) => Seq::empty(),
        ScriptValueModel::Table(_) => Seq::empty(),
    }
}

/// The flat entries a script value contributes under `prefix`: a scalar is
/// one entry; an array contributes its elements under `prefix.index`; a
/// table contributes its entries under `prefix.key`.
pub open spec fn spec_flatten(prefix: Seq<char>, v: ScriptValueModel) -> Seq<
    (Seq<char>, Seq<char>),
>
    decreases v, 0int,
    via spec_flatten_dec
{
    match v {
        ScriptValueModel::Array(elems) => spec_flatten_array(prefix, elems, elems.len() as int),
        ScriptValueModel::Table(entries) => spec_flatten_table(
            prefix,
            entries,
            entries.len() as int,
        ),
        _ => seq![(prefix, spec_stringify_script(v))],
    }
}

#[via_fn]
proof fn spec_flatten_dec(prefix: Seq<char>, v: ScriptValueModel) {
    match v {
        ScriptValueModel::Array(elems) => {
            assert(decreases_to!(v => elems));
        },
        ScriptValueModel::Table(entries) => {
            assert(decreases_to!(v => entries));
        },
        _ => {},
    }
}

/// The flat entries of the first `n` elements of an array.
pub open spec fn spec_flatten_array(
    prefix: Seq<char>,
    elems: Seq<ScriptValueModel>,
    n: int,
) -> Seq<(Seq<char>, Seq<char>)>
    decreases elems, n,
    when n <= elems.len()
    via spec_flatten_array_dec
{
    if n <= 0 {
        Seq::empty()
    } else {
        spec_flatten_array(prefix, elems, n - 1) + spec_flatten(
            prefix + "."@ + spec_nat_dec((n - 1) as nat),
            elems[n - 1],
        )
    }
}

#[via_fn]
proof fn spec_flatten_array_dec(prefix: Seq<char>, elems: Seq<ScriptValueModel>, n: int) {
    if n > 0 && 0 <= n - 1 < elems.len() {
        assert(decreases_to!(elems => elems[n - 1]));
    }
}

/// The flat entries of the first `n` entries of a table.
pub open spec fn spec_flatten_table(
    prefix: Seq<char>,
    entries: Seq<(Seq<char>, ScriptValueModel)>,
    n: int,
) -> Seq<(Seq<char>, Seq<char>)>
    decreases entries, n,
    when n <= entries.len()
    via spec_flatten_table_dec
{
    if n <= 0 {
        Seq::empty()
    } else {
        spec_flatten_table(prefix, entries, n - 1) + spec_flatten(
            prefix + "."@ + entries[n - 1].0,
            entries[n - 1].1,
        )
    }
}

#[via_fn]
proof fn spec_flatten_table_dec(
    prefix: Seq<char>,
    entries: Seq<(Seq<char>, ScriptValueModel)>,
    n: int,
) {
    if n > 0 && 0 <= n - 1 < entries.len() {
        assert(decreases_to!(entries => entries[n - 1].1));
    }
}

/// Flattening a one-entry table is flattening its value with the key joined
/// onto the prefix by a dot: nesting one level deeper only lengthens the
/// flat key.
pub proof fn lemma_flatten_nested_prefix(prefix: Seq<char>, k: Seq<char>, v: ScriptValueModel)
    ensures
        spec_flatten(prefix, ScriptValueModel::Table(seq![(k, v)])) == spec_flatten(
            prefix + "."@ + k,
            v,
        ),
{
    let entries: Seq<(Seq<char>, ScriptValueModel)> = seq![(k, v)];
    assert(spec_flatten_table(prefix, entries, 0) == Seq::<(Seq<char>, Seq<char>)>::empty());
    assert(spec_flatten_table(prefix, entries, 1) =~= spec_flatten(prefix + "."@ + k, v));
}

/// Builds the one flat entry of a scalar.
fn scalar_entry(prefix: &str, text: String) -> (r: Vec<(String, String)>)
    ensures
        r.deep_view() =~= seq![(prefix@, text@)],
{
    let mut out: Vec<(String, String)> = Vec::new();
    out.push((prefix.to_owned(), text));
    out
}

/// Turns a script value into flat text entries under `name`: a scalar
/// becomes `{name: text}`; arrays and tables recurse with
/// the index or key joined on by a dot.
pub fn flatten(name: &str, v: &ScriptValue) -> (r: Vec<(String, String)>)
    ensures
        r.deep_view() == spec_flatten(name@, view_script_value(*v)),
    decreases *v, 0int,
{
    match v {
        ScriptValue::Boolean(b) => {
            let r = scalar_entry(name, bool_to_string(*b));
            proof {
                assert(view_script_value(*v) == ScriptValueModel::Boolean(*b));
                assert(spec_flatten(name@, view_script_value(*v)) =~= seq![(
                    name@,
                    spec_bool_str(*b),
                )]);
                assert(r.deep_view() =~= spec_flatten(name@, view_script_value(*v)));
            }
            r
        },
        ScriptValue::Integer(i) => {
            let r = scalar_entry(name, i64_to_string(*i));
            proof {
                assert(r.deep_view() =~= spec_flatten(name@, view_script_value(*v)));
            }
            r
        },
        ScriptValue::Float(s) => {
            let r = scalar_entry(name, s.clone());
            proof {
                assert(r.deep_view() =~= spec_flatten(name@, view_script_value(*v)));
            }
            r
        },
        ScriptValue::Text(s) => {
            let r = scalar_entry(name, s.clone());
            proof {
                assert(r.deep_view() =~= spec_flatten(name@, view_script_value(*v)));
            }
            r
        },
        ScriptValue::Array(elems) => {
            proof {
                assert(decreases_to!(*v => *elems));
                assert(decreases_to!(*elems => elems@));
            }
            let r = flatten_array(name, elems);
            proof {
                lemma_view_script_vec(elems@);
                assert(*v == ScriptValue::Array(*elems));
            }
            r
        },
        ScriptValue::Table(entries) => {
            proof {
                assert(decreases_to!(*v => *entries));
                assert(decreases_to!(*entries => entries@));
            }
            let r = flatten_table(name, entries);
            proof {
                lemma_view_script_entries(entries@);
                assert(*v == ScriptValue::Table(*entries));
            }
            r
        },
    }
}

/// Flattens every element of an array under `prefix.index`.
fn flatten_array(prefix: &str, elems: &Vec<ScriptValue>) -> (r: Vec<(String, String)>)
    ensures
        r.deep_view() == spec_flatten_array(
            prefix@,
            view_script_vec(elems@),
            elems@.len() as int,
        ),
    decreases elems@, elems@.len() as int,
{
    let ghost vs = view_script_vec(elems@);
    let mut out: Vec<(String, String)> = Vec::new();
    proof {
        lemma_view_script_vec(elems@);
        assert(out.deep_view() =~= spec_flatten_array(prefix@, vs, 0));
    }
    let mut i: usize = 0;
    while i < elems.len()
        invariant
            i <= elems.len(),
            vs == view_script_vec(elems@),
            vs.len() == elems@.len(),
            forall|j: int| 0 <= j < elems@.len() ==> vs[j] == view_script_value(elems@[j]),
            out.deep_view() == spec_flatten_array(prefix@, vs, i as int),
        decreases elems.len() - i,
    {
        let mut child_prefix = prefix.to_owned();
        child_prefix.append(".");
        let index_text = usize_to_string(i);
        child_prefix.append(index_text.as_str());
        proof {
            assert(child_prefix@ == prefix@ + "."@ + spec_nat_dec(i as nat));
            assert(decreases_to!(elems@ => elems@[i as int]));
        }
        let ghost prev = out.deep_view();
        let mut child = flatten(child_prefix.as_str(), &elems[i]);
        out.append(&mut child);
        proof {
            assert(out.deep_view() =~~= prev + spec_flatten(
                prefix@ + "."@ + spec_nat_dec(i as nat),
                vs[i as int],
            ));
            assert(out.deep_view() == spec_flatten_array(prefix@, vs, i + 1 as int));
        }
        i = i + 1;
    }
    out
}

/// Flattens every entry of a table under `prefix.key`.
fn flatten_table(prefix: &str, entries: &Vec<(String, ScriptValue)>) -> (r: Vec<(String, String)>)
    ensures
        r.deep_view() == spec_flatten_table(
            prefix@,
            view_script_entries(entries@),
            entries@.len() as int,
        ),
    decreases entries@, entries@.len() as int,
{
    let ghost vs = view_script_entries(entries@);
    let mut out: Vec<(String, String)> = Vec::new();
    proof {
        lemma_view_script_entries(entries@);
        assert(out.deep_view() =~= spec_flatten_table(prefix@, vs, 0));
    }
    let mut i: usize = 0;
    while i < entries.len()
        invariant
            i <= entries.len(),
            vs == view_script_entries(entries@),
            vs.len() == entries@.len(),
            forall|j: int|
                0 <= j < entries@.len() ==> vs[j] == (
                    entries@[j].0@,
                    view_script_value(entries@[j].1),
                ),
            out.deep_view() == spec_flatten_table(prefix@, vs, i as int),
        decreases entries.len() - i,
    {
        let mut child_prefix = prefix.to_owned();
        child_prefix.append(".");
        child_prefix.append(entries[i].0.as_str());
        proof {
            assert(child_prefix@ == prefix@ + "."@ + entries@[i as int].0@);
            assert(decreases_to!(entries@ => entries@[i as int].1));
        }
        let ghost prev = out.deep_view();
        let mut child = flatten(child_prefix.as_str(), &entries[i].1);
        out.append(&mut child);
        proof {
            assert(out.deep_view() =~~= prev + spec_flatten(
                prefix@ + "."@ + vs[i as int].0,
                vs[i as int].1,
            ));
            assert(out.deep_view() == spec_flatten_table(prefix@, vs, i + 1 as int));
        }
        i = i + 1;
    }
    out
}

/// rhai's dynamic value, declared so wrappers can pass it around; the
/// library never looks inside one.
#[verifier::external_type_specification]
#[verifier::external_body]
pub struct ExDynamic(rhai::Dynamic);

/// Relies on rhai's Dynamic constructors: converts a scalar script value
/// into the engine's dynamic value.  A float rendering that no longer
/// parses as a number is passed through as text.  Only called from
/// `eval_rhai`'s conversion; nothing is promised of the opaque result.
#[verifier::external_body]
fn scalar_to_dynamic(v: &ScriptValue) -> rhai::Dynamic {
    match v {
        ScriptValue::Boolean(b) => rhai::Dynamic::from(*b),
        ScriptValue::Integer(i) => rhai::Dynamic::from(*i),
        ScriptValue::Float(s) => match s.parse::<rhai::FLOAT>() {
            Ok(f) => rhai::Dynamic::from(f),
            Err(_) => rhai::Dynamic::from(s.clone()),
        },
        ScriptValue::Text(s) => rhai::Dynamic::from(s.clone()),
        _ => rhai::Dynamic::from(()),
    }
}

/// Relies on rhai's Array and Map collections: converts a script value
/// into the engine's dynamic value, recursing through arrays and tables
/// and handing scalars to `scalar_to_dynamic`.  Only called from
/// `eval_rhai`'s body; nothing is promised of the opaque result.
#[verifier::external_body]
fn script_value_to_dynamic(v: &ScriptValue) -> rhai::Dynamic {
    match v {
        ScriptValue::Array(elems) => rhai::Dynamic::from(
            elems.iter().map(script_value_to_dynamic).collect::<rhai::Array>(),
        ),
        ScriptValue::Table(entries) => rhai::Dynamic::from(
            entries.iter().map(
                |(k, v)| (k.as_str().into(), script_value_to_dynamic(v)),
            ).collect::<rhai::Map>(),
        ),
        scalar => scalar_to_dynamic(scalar),
    }
}

/// Relies on rhai's Dynamic accessors: converts a scalar dynamic value
/// back into a script value; a value of any other engine type comes back
/// as its text.  Only called from `eval_rhai`'s conversion; nothing is
/// promised of the result, which depends on what a script produced.
#[verifier::external_body]
fn dynamic_to_scalar(d: rhai::Dynamic) -> ScriptValue {
    if d.is_bool() {
        ScriptValue::Boolean(d.as_bool().unwrap_or(false))
    } else if d.is_int() {
        ScriptValue::Integer(d.as_int().unwrap_or(0))
    } else if d.is_float() {
        ScriptValue::Float(d.as_float().map(|f| f.to_string()).unwrap_or_default())
    } else if d.is_string() {
        ScriptValue::Text(d.into_string().unwrap_or_default())
    } else {
        ScriptValue::Text(d.to_string())
    }
}

/// Relies on rhai's Array and Map collections: converts a dynamic value
/// back into a script value, recursing through arrays and maps and handing
/// everything else to `dynamic_to_scalar`.  Only called from `eval_rhai`'s
/// body; nothing is promised of the result.
#[verifier::external_body]
fn dynamic_to_script_value(d: rhai::Dynamic) -> ScriptValue {
    if d.is_array() {
        ScriptValue::Array(
            d.into_array().unwrap_or_default().into_iter().map(dynamic_to_script_value).collect(),
        )
    } else if d.is_map() {
        match d.try_cast::<rhai::Map>() {
            Some(m) => ScriptValue::Table(
                m.into_iter().map(|(k, v)| (k.to_string(), dynamic_to_script_value(v))).collect(),
            ),
            None => ScriptValue::Text(String::new()),
        }
    } else {
        dynamic_to_scalar(d)
    }
}

/// Relies on rhai's Engine::eval_file_with_scope: runs the script file at
/// `path` with the script input bound to the constant `value`, and hands
/// back the map the script evaluated to, entry by entry; `None` when
/// evaluation fails.  What comes back depends on the file on disk and on
/// the engine, so nothing is promised of the entries; the callers state
/// what holds of every outcome.
#[verifier::external_body]
pub fn eval_rhai(path: &String, value: &ScriptValue) -> (r: Option<Vec<(String, ScriptValue)>>) {
    let mut scope = rhai::Scope::new();
    scope.push_constant_dynamic("value", script_value_to_dynamic(value));
    let engine = rhai::Engine::new();
    match engine.eval_file_with_scope::<rhai::Map>(&mut scope, std::path::PathBuf::from(path)) {
        Ok(map) => Some(
            map.into_iter().map(|(k, v)| (k.to_string(), dynamic_to_script_value(v))).collect(),
        ),
        Err(_) => None,
    }
}

} // verus!
