//! Documents: the rows a schema is inferred from and bound against.

use vstd::prelude::*;

use crate::field_type::TableSchemaFieldType;
use crate::number::{integer_of_float, whole_number};

verus! {

/// One value of a document, as far as a schema reads it.
///
/// Arrays and objects are opaque: what they hold is never looked at.
#[derive(Debug, PartialEq)]
pub enum FieldValue {
    Null,
    Bool(bool),
    /// A whole number from `i64::MIN` to `i64::MAX`.
    Int(i64),
    /// A number held as a 64-bit float, by the IEEE 754 bit pattern of that
    /// float. It counts as a float where it has a fractional part or lies
    /// beyond the 64-bit signed integers, and as the integer it denotes
    /// where it is whole and fits one.
    Float(u64),
    /// A number that reads neither as a 64-bit signed integer nor as a
    /// 64-bit float.
    OutOfRange,
    Text(String),
    Array,
    Object,
}

/// The mathematical value of a [`FieldValue`].
pub enum SpecFieldValue {
    Null,
    Bool(bool),
    Int(i64),
    Float(u64),
    OutOfRange,
    Text(Seq<char>),
    Array,
    Object,
}

impl View for FieldValue {
    type V = SpecFieldValue;

    open spec fn view(&self) -> SpecFieldValue {
        match self {
            FieldValue::Null => SpecFieldValue::Null,
            FieldValue::Bool(b) => SpecFieldValue::Bool(*b),
            FieldValue::Int(i) => SpecFieldValue::Int(*i),
            FieldValue::Float(bits) => SpecFieldValue::Float(*bits),
            FieldValue::OutOfRange => SpecFieldValue::OutOfRange,
            FieldValue::Text(s) => SpecFieldValue::Text(s@),
            FieldValue::Array => SpecFieldValue::Array,
            FieldValue::Object => SpecFieldValue::Object,
        }
    }
}

impl Clone for FieldValue {
    /// A value with the same content.
    fn clone(&self) -> (copy: FieldValue)
        ensures
            copy@ == self@,
    {
        match self {
            FieldValue::Null => FieldValue::Null,
            FieldValue::Bool(b) => FieldValue::Bool(*b),
            FieldValue::Int(i) => FieldValue::Int(*i),
            FieldValue::Float(bits) => FieldValue::Float(*bits),
            FieldValue::OutOfRange => FieldValue::OutOfRange,
            FieldValue::Text(s) => FieldValue::Text(s.clone()),
            FieldValue::Array => FieldValue::Array,
            FieldValue::Object => FieldValue::Object,
        }
    }
}

impl SpecFieldValue {
    /// The column type that a value asks of its field: none for null, `Int`
    /// for a number without fractional part that fits a 64-bit signed
    /// integer, however it is held, and `Float` for every other number,
    /// `Text` for strings, arrays and objects.
    pub open spec fn field_type(self) -> Option<TableSchemaFieldType> {
        match self {
            SpecFieldValue::Null => None,
            SpecFieldValue::Bool(_) => Some(TableSchemaFieldType::Bool),
            SpecFieldValue::Int(_) => Some(TableSchemaFieldType::Int),
            SpecFieldValue::Float(bits) => if whole_number(bits) is Some {
                Some(TableSchemaFieldType::Int)
            } else {
                Some(TableSchemaFieldType::Float)
            },
            SpecFieldValue::OutOfRange => Some(TableSchemaFieldType::Float),
            SpecFieldValue::Text(_) => Some(TableSchemaFieldType::Text),
            SpecFieldValue::Array => Some(TableSchemaFieldType::Text),
            SpecFieldValue::Object => Some(TableSchemaFieldType::Text),
        }
    }
}

/// The value of a number, from its two readings: as a 64-bit signed integer
/// and as the bit pattern of a 64-bit float. A number with an integer
/// reading is that integer. A number with a float reading alone is the
/// integer that the float denotes, where the float is whole and fits a
/// 64-bit signed integer, and the float otherwise.
pub open spec fn number_value(integer: Option<i64>, float_bits: Option<u64>) -> SpecFieldValue {
    match integer {
        Some(i) => SpecFieldValue::Int(i),
        None => match float_bits {
            Some(bits) => match whole_number(bits) {
                Some(n) => SpecFieldValue::Int(n),
                None => SpecFieldValue::Float(bits),
            },
            None => SpecFieldValue::OutOfRange,
        },
    }
}

impl FieldValue {
    /// The value of a number, from its reading as a 64-bit signed integer
    /// and its reading as the bit pattern of a 64-bit float: `Int` where the
    /// number has no fractional part and fits a 64-bit signed integer,
    /// `Float` where it has a float reading and is no such integer, and
    /// `OutOfRange` where it has neither reading.
    pub fn of_number(integer: Option<i64>, float_bits: Option<u64>) -> (value: FieldValue)
        ensures
            value@ == number_value(integer, float_bits),
    {
        match integer {
            Some(i) => FieldValue::Int(i),
            None => match float_bits {
                Some(bits) => match integer_of_float(bits) {
                    Some(n) => FieldValue::Int(n),
                    None => FieldValue::Float(bits),
                },
                None => FieldValue::OutOfRange,
            },
        }
    }

    /// Classifies the value into the column type it asks of its field, or
    /// `None` where the value is null and so says nothing about the field.
    pub fn field_type(&self) -> (t: Option<TableSchemaFieldType>)
        ensures
            t == self@.field_type(),
    {
        match self {
            FieldValue::Null => None,
            FieldValue::Bool(_) => Some(TableSchemaFieldType::Bool),
            FieldValue::Int(_) => Some(TableSchemaFieldType::Int),
            FieldValue::Float(bits) => if integer_of_float(*bits).is_some() {
                Some(TableSchemaFieldType::Int)
            } else {
                Some(TableSchemaFieldType::Float)
            },
            FieldValue::OutOfRange => Some(TableSchemaFieldType::Float),
            FieldValue::Text(_) => Some(TableSchemaFieldType::Text),
            FieldValue::Array => Some(TableSchemaFieldType::Text),
            FieldValue::Object => Some(TableSchemaFieldType::Text),
        }
    }
}

/// The entries of a key/value map, in their order, as mathematical values.
pub type SpecEntries = Seq<(Seq<char>, SpecFieldValue)>;

/// The mathematical value of a sequence of entries.
pub open spec fn entries_view(entries: Seq<(String, FieldValue)>) -> SpecEntries {
    Seq::new(entries.len(), |i: int| (entries[i].0@, entries[i].1@))
}

/// One row: the content that a document source hands over.
#[derive(Debug, PartialEq)]
pub enum Document {
    /// A flat key/value map, as its entries in the order the source
    /// enumerates them.
    Object(Vec<(String, FieldValue)>),
    /// Content that is no key/value map.
    Other,
}

/// The mathematical value of a [`Document`].
pub enum SpecDocument {
    Object(SpecEntries),
    Other,
}

impl View for Document {
    type V = SpecDocument;

    open spec fn view(&self) -> SpecDocument {
        match self {
            Document::Object(entries) => SpecDocument::Object(entries_view(entries@)),
            Document::Other => SpecDocument::Other,
        }
    }
}

impl Clone for Document {
    /// A document with the same entries in the same order.
    fn clone(&self) -> (copy: Document)
        ensures
            copy@ == self@,
    {
        match self {
            Document::Other => Document::Other,
            Document::Object(entries) => {
                let mut copied: Vec<(String, FieldValue)> = Vec::new();
                let mut i: usize = 0;
                while i < entries.len()
                    invariant
                        i <= entries@.len(),
                        copied@.len() == i,
                        forall|k: int|
                            0 <= k < i ==> (#[trigger] copied@[k]).0@ == entries@[k].0@
                                && copied@[k].1@ == entries@[k].1@,
                    decreases entries@.len() - i,
                {
                    copied.push((entries[i].0.clone(), entries[i].1.clone()));
                    i += 1;
                }
                assert(entries_view(copied@) =~= entries_view(entries@));
                Document::Object(copied)
            },
        }
    }
}

/// The mathematical value of a batch of documents.
pub open spec fn documents_view(docs: Seq<Document>) -> Seq<SpecDocument> {
    Seq::new(docs.len(), |i: int| docs[i]@)
}

} // verus!
