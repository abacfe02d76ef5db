//! The values in settings and profiles, used for templating: scalars and
//! script-derived values.  Stringification turns a scalar into the text a
//! template placeholder receives.

use crate::script::{view_script_value, ScriptValue, ScriptValueModel};
use crate::text::{
    bool_to_string, i64_to_string, spec_bool_str, spec_int_dec,
};
use vstd::prelude::*;

verus! {

/// A configuration value: a scalar, or a script to evaluate.  A float is
/// carried as its decimal rendering, which is all the templating logic ever
/// reads of it.  Exactly one variant is active at a time.
#[derive(Debug)]
pub enum Value {
    Boolean(bool),
    Integer(i64),
    Float(String),
    Text(String),
    Script { script: String, value: ScriptValue },
}

/// Mathematical model of a `Value`.
#[verifier::ext_equal]
pub enum ValueModel {
    Boolean(bool),
    Integer(int),
    Float(Seq<char>),
    Text(Seq<char>),
    Script { script: Seq<char>, value: ScriptValueModel },
}

/// The model of a value.
pub open spec fn view_value(v: Value) -> ValueModel {
    match v {
        Value::Boolean(b) => ValueModel::Boolean(b),
        Value::Integer(i) => ValueModel::Integer(i as int),
        Value::Float(s) => ValueModel::Float(s@),
        Value::Text(s) => ValueModel::Text(s@),
        Value::Script { script, value } => ValueModel::Script {
            script: script@,
            value: view_script_value(value),
        },
    }
}

/// The models of a sequence of named value entries, as a value table is
/// held.
pub open spec fn view_value_entries(s: Seq<(String, Value)>) -> Seq<(Seq<char>, ValueModel)> {
    Seq::new(s.len(), |i: int| (s[i].0@, view_value(s[i].1)))
}

/// Whether a value model is the script variant.
pub open spec fn spec_is_script(v: ValueModel) -> bool {
    v matches ValueModel::Script { .. }
}

/// The text a scalar value contributes to a template map: booleans as
/// `true`/`false`, integers in decimal, floats and strings as the text they
/// hold.  A script value contributes nothing directly; its evaluation result
/// is flattened instead.
pub open spec fn spec_stringify(v: ValueModel) -> Seq<char> {
    match v {
        ValueModel::Boolean(b) => spec_bool_str(b),
        ValueModel::Integer(i) => spec_int_dec(i),
        ValueModel::Float(s) => s,
        ValueModel::Text(s) => s,
        ValueModel::Script { .. } => Seq::empty(),
    }
}

impl Value {
    /// An owned copy of this value.
    pub fn dup(&self) -> (r: Value)
        ensures
            view_value(r) == view_value(*self),
    {
        match self {
            Value::Boolean(b) => Value::Boolean(*b),
            Value::Integer(i) => Value::Integer(*i),
            Value::Float(s) => Value::Float(s.clone()),
            Value::Text(s) => Value::Text(s.clone()),
            Value::Script { script, value } => Value::Script {
                script: script.clone(),
                value: value.dup(),
            },
        }
    }

    /// Whether this is a script value.
    pub fn is_script(&self) -> (r: bool)
        ensures
            r == spec_is_script(view_value(*self)),
    {
        match self {
            Value::Script { .. } => true,
            _ => false,
        }
    }

    /// The text of a scalar value; `None` for a script value, which has no
    /// direct text.
    pub fn stringify(&self) -> (r: Option<String>)
        ensures
            match r {
                Some(s) => !spec_is_script(view_value(*self)) && s@ == spec_stringify(
                    view_value(*self),
                ),
                None => spec_is_script(view_value(*self)),
            },
    {
        match self {
            Value::Boolean(b) => Some(bool_to_string(*b)),
            Value::Integer(i) => Some(i64_to_string(*i)),
            Value::Float(s) => Some(s.clone()),
            Value::Text(s) => Some(s.clone()),
            Value::Script { .. } => None,
        }
    }
}

} // verus!
