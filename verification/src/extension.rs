//! Extension attributes: typed scalar values under names chosen by the
//! producer.

use crate::entries::{keys_distinct, lemma_lookup_absent};
use crate::json::{JsonModel, JsonValue};
use crate::names::NameMap;
use crate::number::{
    decimal_of,
    decimal_text,
    integer_of,
    integer_of_literal,
    lemma_decimal_round_trip,
};
use vstd::prelude::*;

verus! {

/// The value of an extension attribute.
#[derive(Debug, PartialEq, Eq)]
pub enum ExtensionValue {
    String(String),
    Boolean(bool),
    Integer(i64),
}

/// What an [`ExtensionValue`] stands for.
pub enum ExtensionModel {
    String(Seq<char>),
    Boolean(bool),
    Integer(i64),
}

impl View for ExtensionValue {
    type V = ExtensionModel;

    open spec fn view(&self) -> ExtensionModel {
        match self {
            ExtensionValue::String(s) => ExtensionModel::String(s@),
            ExtensionValue::Boolean(b) => ExtensionModel::Boolean(*b),
            ExtensionValue::Integer(i) => ExtensionModel::Integer(*i),
        }
    }
}

/// The typed JSON form of an extension value: a string, a boolean, or the
/// number whose literal is the decimal text of the integer.
pub open spec fn extension_to_json(x: ExtensionModel) -> JsonModel {
    match x {
        ExtensionModel::String(s) => JsonModel::String(s),
        ExtensionModel::Boolean(b) => JsonModel::Bool(b),
        ExtensionModel::Integer(i) => JsonModel::Number(decimal_text(i as int)),
    }
}

/// The extension value that a JSON value stands for: a string, a boolean,
/// or a number that denotes an integer of 64 bits. No other JSON value is
/// an extension value.
pub open spec fn extension_of_json(v: JsonModel) -> Option<ExtensionModel> {
    match v {
        JsonModel::String(s) => Some(ExtensionModel::String(s)),
        JsonModel::Bool(b) => Some(ExtensionModel::Boolean(b)),
        JsonModel::Number(literal) => match integer_of_literal(literal) {
            Some(i) => Some(ExtensionModel::Integer(i)),
            None => None,
        },
        _ => None,
    }
}

/// The form of an extension value where every value has to be a string:
/// the string itself, `true` or `false`, or the decimal text of the integer.
pub open spec fn coerced_text(x: ExtensionModel) -> Seq<char> {
    match x {
        ExtensionModel::String(s) => s,
        ExtensionModel::Boolean(b) => if b {
            "true"@
        } else {
            "false"@
        },
        ExtensionModel::Integer(i) => decimal_text(i as int),
    }
}

/// An extension value keeps its variant through JSON: a boolean is written
/// as a JSON boolean, a string as a JSON string, an integer as a JSON
/// number, and reading what was written gives the value back.
pub proof fn lemma_extension_round_trip(x: ExtensionModel)
    ensures
        extension_of_json(extension_to_json(x)) == Some(x),
        x is Boolean ==> extension_to_json(x) is Bool,
        x is String ==> extension_to_json(x) is String,
        x is Integer ==> extension_to_json(x) is Number,
{
    if let ExtensionModel::Integer(i) = x {
        lemma_decimal_round_trip(i);
    }
}

impl ExtensionValue {
    /// The typed JSON form of this value.
    pub fn to_json(&self) -> (r: JsonValue)
        ensures
            r@ == extension_to_json(self@),
    {
        match self {
            ExtensionValue::String(s) => JsonValue::String(s.clone()),
            ExtensionValue::Boolean(b) => JsonValue::Bool(*b),
            ExtensionValue::Integer(i) => JsonValue::Number(decimal_of(*i)),
        }
    }

    /// The extension value that `value` stands for, if it stands for one.
    pub fn from_json(value: &JsonValue) -> (r: Option<ExtensionValue>)
        ensures
            r is Some == extension_of_json(value@) is Some,
            r matches Some(x) ==> extension_of_json(value@) == Some(x@),
    {
        match value {
            JsonValue::String(s) => Some(ExtensionValue::String(s.clone())),
            JsonValue::Bool(b) => Some(ExtensionValue::Boolean(*b)),
            JsonValue::Number(literal) => match integer_of(literal.as_str()) {
                Some(i) => Some(ExtensionValue::Integer(i)),
                None => None,
            },
            _ => None,
        }
    }

    /// This value as a string, for a transport whose attributes are strings.
    pub fn coerced(&self) -> (r: String)
        ensures
            r@ == coerced_text(self@),
    {
        match self {
            ExtensionValue::String(s) => s.clone(),
            ExtensionValue::Boolean(b) => if *b {
                "true".to_string()
            } else {
                "false".to_string()
            },
            ExtensionValue::Integer(i) => decimal_of(*i),
        }
    }

    /// A copy of this value.
    pub fn duplicate(&self) -> (r: ExtensionValue)
        ensures
            r@ == self@,
    {
        match self {
            ExtensionValue::String(s) => ExtensionValue::String(s.clone()),
            ExtensionValue::Boolean(b) => ExtensionValue::Boolean(*b),
            ExtensionValue::Integer(i) => ExtensionValue::Integer(*i),
        }
    }
}

/// The extensions of an event: an ordered mapping from names to values in
/// which no name occurs twice.
pub type ExtensionMap = NameMap<ExtensionValue>;

/// A copy of a mapping of extensions.
pub fn duplicate_extensions(extensions: &ExtensionMap) -> (r: ExtensionMap)
    ensures
        r@ == extensions@,
{
    let mut out = ExtensionMap::new();
    let n: usize = extensions.len();
    let mut i: usize = 0;
    assert(extensions@.take(0) =~= Seq::<(Seq<char>, ExtensionModel)>::empty());
    while i < n
        invariant
            n == extensions@.len(),
            i <= n,
            keys_distinct(extensions@),
            out@ == extensions@.take(i as int),
        decreases n - i,
    {
        match extensions.entry(i) {
            Some(e) => {
                proof {
                    assert forall|j: int| 0 <= j < out@.len() implies (#[trigger] out@[j]).0
                        != e.0@ by {
                        assert(out@[j] == extensions@[j]);
                    }
                    lemma_lookup_absent(out@, e.0@);
                }
                out.insert(e.0.clone(), e.1.duplicate());
                assert(out@ =~= extensions@.take(i + 1));
            },
            None => {},
        }
        i += 1;
    }
    assert(extensions@.take(n as int) =~= extensions@);
    out
}

} // verus!
