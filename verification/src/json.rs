//! Reading documents out of `serde_json` values.
//!
//! A `serde_json::Value` is opaque to the verifier. What it holds is given a
//! name, [`json_model`], and the few `serde_json` calls made here are
//! specified over that name; nothing about them is proved. The conversion
//! into [`Document`] is verified against those specifications.

use vstd::prelude::*;

use crate::document::{
    entries_view, number_value, Document, FieldValue, SpecDocument, SpecFieldValue,
};

verus! {

/// `serde_json::Value`, as a type whose values are carried and never looked
/// into.
#[verifier::external_type_specification]
#[verifier::external_body]
pub struct ExJsonValue(serde_json::Value);

/// What a JSON value holds, as far as this library reads it.
pub enum JsonModel {
    Null,
    Bool(bool),
    /// A number, by its two readings: as a 64-bit signed integer, and as the
    /// bit pattern of a 64-bit float.
    Number { integer: Option<i64>, float_bits: Option<u64> },
    Text(Seq<char>),
    Array,
    /// An object, by its entries in the order in which the object hands
    /// them out.
    Object(Seq<(Seq<char>, JsonModel)>),
}

/// What the value `v` holds.
pub uninterp spec fn json_model(v: serde_json::Value) -> JsonModel;

/// The variant of a JSON value, with what a boolean or a string carries.
enum JsonHead<'a> {
    Null,
    Bool(bool),
    Number,
    Text(&'a String),
    Array,
    Object,
}

/// Tells the six variants of `serde_json::Value` apart.
///
/// Trusted: the variant found is the one that [`json_model`] gives the
/// value, and a boolean or a string is handed over as the value holds it.
#[verifier::external_body]
fn json_head<'a>(v: &'a serde_json::Value) -> (head: JsonHead<'a>)
    ensures
        match head {
            JsonHead::Null => json_model(*v) == JsonModel::Null,
            JsonHead::Bool(b) => json_model(*v) == JsonModel::Bool(b),
            JsonHead::Number => json_model(*v) is Number,
            JsonHead::Text(s) => json_model(*v) == JsonModel::Text(s@),
            JsonHead::Array => json_model(*v) == JsonModel::Array,
            JsonHead::Object => json_model(*v) is Object,
        },
{
    match v {
        serde_json::Value::Null => JsonHead::Null,
        serde_json::Value::Bool(b) => JsonHead::Bool(*b),
        serde_json::Value::Number(_) => JsonHead::Number,
        serde_json::Value::String(s) => JsonHead::Text(s),
        serde_json::Value::Array(_) => JsonHead::Array,
        serde_json::Value::Object(_) => JsonHead::Object,
    }
}

/// `serde_json::Value::as_i64`: the number as a 64-bit signed integer.
///
/// Trusted: the result is the integer reading that [`json_model`] gives a
/// number, and `None` for every value that is no number.
pub assume_specification[ serde_json::Value::as_i64 ](v: &serde_json::Value) -> (r: Option<i64>)
    ensures
        r == match json_model(*v) {
            JsonModel::Number { integer, float_bits } => integer,
            _ => None,
        },
;

/// `serde_json::Value::as_f64`: the number as a 64-bit float, handed over
/// as the bit pattern of that float.
///
/// Trusted: the result is the float reading that [`json_model`] gives a
/// number, and `None` for every value that is no number.
#[verifier::external_body]
fn json_float_bits(v: &serde_json::Value) -> (r: Option<u64>)
    ensures
        r == match json_model(*v) {
            JsonModel::Number { integer, float_bits } => float_bits,
            _ => None,
        },
{
    match v.as_f64() {
        Some(x) => Some(x.to_bits()),
        None => None,
    }
}

/// `serde_json::Value::as_object` and `serde_json::Map::iter`: the entries
/// of an object, in the order in which the object hands them out.
///
/// Trusted: an object gives its entries as [`json_model`] lists them, key by
/// key and value by value; every other value gives `None`.
#[verifier::external_body]
fn json_entries<'a>(v: &'a serde_json::Value) -> (r: Option<Vec<(&'a String, &'a serde_json::Value)>>)
    ensures
        match json_model(*v) {
            JsonModel::Object(fields) => {
                &&& r matches Some(entries)
                &&& entries@.len() == fields.len()
                &&& forall|i: int|
                    0 <= i < fields.len() ==> (#[trigger] entries@[i]).0@ == fields[i].0
                        && json_model(*entries@[i].1) == fields[i].1
            },
            _ => r is None,
        },
{
    match v.as_object() {
        Some(map) => Some(map.iter().collect()),
        None => None,
    }
}

/// The value of a field that holds the JSON value `m`.
pub open spec fn field_value_of(m: JsonModel) -> SpecFieldValue {
    match m {
        JsonModel::Null => SpecFieldValue::Null,
        JsonModel::Bool(b) => SpecFieldValue::Bool(b),
        JsonModel::Number { integer, float_bits } => number_value(integer, float_bits),
        JsonModel::Text(s) => SpecFieldValue::Text(s),
        JsonModel::Array => SpecFieldValue::Array,
        JsonModel::Object(_) => SpecFieldValue::Object,
    }
}

/// The document whose content is the JSON value `m`.
pub open spec fn document_of(m: JsonModel) -> SpecDocument {
    match m {
        JsonModel::Object(fields) => SpecDocument::Object(
            Seq::new(fields.len(), |i: int| (fields[i].0, field_value_of(fields[i].1))),
        ),
        _ => SpecDocument::Other,
    }
}

impl FieldValue {
    /// Reads a field's value out of a JSON value. A number is an `Int`
    /// where it has no fractional part and fits a 64-bit signed integer,
    /// whether it is held as an integer or as a float; otherwise it is a
    /// `Float` where it reads as a 64-bit float, and `OutOfRange` where it
    /// does not. Of an array or an object only the kind is kept.
    pub fn from_json(v: &serde_json::Value) -> (value: FieldValue)
        ensures
            value@ == field_value_of(json_model(*v)),
    {
        match json_head(v) {
            JsonHead::Null => FieldValue::Null,
            JsonHead::Bool(b) => FieldValue::Bool(b),
            JsonHead::Number => FieldValue::of_number(v.as_i64(), json_float_bits(v)),
            JsonHead::Text(s) => FieldValue::Text(s.clone()),
            JsonHead::Array => FieldValue::Array,
            JsonHead::Object => FieldValue::Object,
        }
    }
}

impl Document {
    /// Reads a document out of its JSON content: an object gives a
    /// key/value map with the object's entries in the object's order, any
    /// other value gives [`Document::Other`].
    pub fn from_json(content: &serde_json::Value) -> (doc: Document)
        ensures
            doc@ == document_of(json_model(*content)),
    {
        match json_entries(content) {
            None => Document::Other,
            Some(entries) => {
                let mut fields: Vec<(String, FieldValue)> = Vec::new();
                let mut i: usize = 0;
                while i < entries.len()
                    invariant
                        i <= entries.len(),
                        fields@.len() == i,
                        forall|k: int|
                            0 <= k < i ==> (#[trigger] fields@[k]).0@ == entries@[k].0@
                                && fields@[k].1@ == field_value_of(json_model(*entries@[k].1)),
                    decreases entries.len() - i,
                {
                    let key: String = entries[i].0.clone();
                    let value = FieldValue::from_json(entries[i].1);
                    fields.push((key, value));
                    i += 1;
                }
                let doc = Document::Object(fields);
                assert(doc@ =~= document_of(json_model(*content))) by {
                    let model = json_model(*content)->Object_0;
                    assert(entries_view(fields@) =~= Seq::new(
                        model.len(),
                        |i: int| (model[i].0, field_value_of(model[i].1)),
                    ));
                }
                doc
            },
        }
    }
}

} // verus!
