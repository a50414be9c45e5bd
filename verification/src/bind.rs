//! Parameter binding: the parameters of one document for an `INSERT`
//! statement, in the statement's order of fields.

use vstd::prelude::*;

use crate::document::{entries_view, Document, FieldValue, SpecDocument, SpecEntries, SpecFieldValue};
use crate::entries::{find, lemma_position_of_first, lookup};
use crate::number::{integer_of_float, whole_number};
use crate::schema::{names_view, TableSchema};
use crate::sql_param::{params_view, SpecSqlParam, SqlParam};

verus! {

/// Why a document gave no parameters.
#[derive(Clone, Debug, PartialEq)]
pub enum BindError {
    /// The document is no key/value map.
    NotAnObject,
    /// The document holds, under `field`, a value that is no scalar: an
    /// array, an object, or a number that reads neither as a 64-bit signed
    /// integer nor as a 64-bit float. `document` is a copy of the document.
    NotScalar { field: String, document: Document },
}

/// The mathematical value of a [`BindError`].
pub enum SpecBindError {
    NotAnObject,
    NotScalar { field: Seq<char>, document: SpecDocument },
}

impl View for BindError {
    type V = SpecBindError;

    open spec fn view(&self) -> SpecBindError {
        match self {
            BindError::NotAnObject => SpecBindError::NotAnObject,
            BindError::NotScalar { field, document } => SpecBindError::NotScalar {
                field: field@,
                document: document@,
            },
        }
    }
}

/// The parameter for what a document holds under a field: null where it
/// holds nothing or null, the scalar where it holds one, and none where it
/// holds what cannot be bound. A number is an integer parameter where it
/// has no fractional part and fits a 64-bit signed integer, however it is
/// held, and a float parameter otherwise.
pub open spec fn param_of(held: Option<SpecFieldValue>) -> Option<SpecSqlParam> {
    match held {
        None => Some(SpecSqlParam::Null),
        Some(SpecFieldValue::Null) => Some(SpecSqlParam::Null),
        Some(SpecFieldValue::Bool(b)) => Some(SpecSqlParam::Bool(b)),
        Some(SpecFieldValue::Int(i)) => Some(SpecSqlParam::Int(i)),
        Some(SpecFieldValue::Float(bits)) => match whole_number(bits) {
            Some(n) => Some(SpecSqlParam::Int(n)),
            None => Some(SpecSqlParam::Float(bits)),
        },
        Some(SpecFieldValue::Text(s)) => Some(SpecSqlParam::Text(s)),
        Some(SpecFieldValue::OutOfRange) => None,
        Some(SpecFieldValue::Array) => None,
        Some(SpecFieldValue::Object) => None,
    }
}

/// The first position at or after `from` whose field holds, in `entries`,
/// what cannot be bound; the length of `names` where there is none.
pub open spec fn first_unbound(names: Seq<Seq<char>>, entries: SpecEntries, from: int) -> int
    decreases names.len() - from,
{
    if from < 0 || from >= names.len() {
        names.len() as int
    } else if param_of(lookup(entries, names[from])) is None {
        from
    } else {
        first_unbound(names, entries, from + 1)
    }
}

/// The parameters of a document for the fields `names`, in their order; or
/// the error for the first field whose value cannot be bound.
pub open spec fn bind_spec(names: Seq<Seq<char>>, doc: SpecDocument) -> Result<
    Seq<SpecSqlParam>,
    SpecBindError,
> {
    match doc {
        SpecDocument::Other => Err(SpecBindError::NotAnObject),
        SpecDocument::Object(entries) => {
            let at = first_unbound(names, entries, 0);
            if at < names.len() {
                Err(SpecBindError::NotScalar { field: names[at], document: doc })
            } else {
                Ok(Seq::new(names.len(), |k: int| param_of(lookup(entries, names[k]))->0))
            }
        },
    }
}

/// The mathematical value of a binding's outcome.
pub open spec fn bound_view(outcome: Result<Vec<SqlParam>, BindError>) -> Result<
    Seq<SpecSqlParam>,
    SpecBindError,
> {
    match outcome {
        Ok(params) => Ok(params_view(params@)),
        Err(error) => Err(error@),
    }
}

/// `first_unbound` finds a field that cannot be bound, and every field
/// between `from` and the one it finds can.
pub proof fn lemma_first_unbound(names: Seq<Seq<char>>, entries: SpecEntries, from: int)
    requires
        0 <= from <= names.len(),
    ensures
        from <= first_unbound(names, entries, from) <= names.len(),
        first_unbound(names, entries, from) < names.len() ==> param_of(
            lookup(entries, names[first_unbound(names, entries, from)]),
        ) is None,
        forall|k: int|
            from <= k < first_unbound(names, entries, from) ==> param_of(
                lookup(entries, #[trigger] names[k]),
            ) is Some,
    decreases names.len() - from,
{
    if from < names.len() && param_of(lookup(entries, names[from])) is Some {
        lemma_first_unbound(names, entries, from + 1);
    }
}

/// The first field that cannot be bound is where `first_unbound` says.
pub proof fn lemma_first_unbound_at(names: Seq<Seq<char>>, entries: SpecEntries, at: int)
    requires
        0 <= at <= names.len(),
        at < names.len() ==> param_of(lookup(entries, names[at])) is None,
        forall|k: int| 0 <= k < at ==> param_of(lookup(entries, #[trigger] names[k])) is Some,
    ensures
        first_unbound(names, entries, 0) == at,
{
    lemma_first_unbound(names, entries, 0);
}

impl Document {
    /// What the document holds under `name`: the value of its first entry
    /// of that name. A document that is no key/value map holds nothing.
    pub fn get(&self, name: &String) -> (held: Option<&FieldValue>)
        ensures
            match self@ {
                SpecDocument::Object(entries) => match held {
                    Some(value) => lookup(entries, name@) == Some(value@),
                    None => lookup(entries, name@) is None,
                },
                SpecDocument::Other => held is None,
            },
    {
        match self {
            Document::Other => None,
            Document::Object(entries) => {
                let at = find(entries, name);
                proof {
                    lemma_position_of_first(entries_view(entries@), name@, at as int);
                }
                if at < entries.len() {
                    Some(&entries[at].1)
                } else {
                    None
                }
            },
        }
    }
}

/// The parameter for what a document holds under a field, or `None` where
/// that cannot be bound.
fn param_for(held: Option<&FieldValue>) -> (param: Option<SqlParam>)
    ensures
        match param {
            Some(p) => param_of(
                match held {
                    Some(value) => Some(value@),
                    None => None,
                },
            ) == Some(p@),
            None => param_of(
                match held {
                    Some(value) => Some(value@),
                    None => None,
                },
            ) is None,
        },
{
    match held {
        None => Some(SqlParam::Null),
        Some(FieldValue::Null) => Some(SqlParam::Null),
        Some(FieldValue::Bool(b)) => Some(SqlParam::Bool(*b)),
        Some(FieldValue::Int(i)) => Some(SqlParam::Int(*i)),
        Some(FieldValue::Float(bits)) => match integer_of_float(*bits) {
            Some(n) => Some(SqlParam::Int(n)),
            None => Some(SqlParam::Float(*bits)),
        },
        Some(FieldValue::Text(s)) => Some(SqlParam::Text(s.clone())),
        Some(FieldValue::OutOfRange) => None,
        Some(FieldValue::Array) => None,
        Some(FieldValue::Object) => None,
    }
}

impl TableSchema {
    /// The parameters of one document for an `INSERT` statement whose
    /// fields are `field_names`, in that order.
    ///
    /// A field that the document lacks, or holds as null, gives a null
    /// parameter; a boolean, a number or a string gives the parameter of
    /// that value, a number without fractional part that fits a 64-bit
    /// signed integer as an integer. Binding fails on a document that is no key/value map,
    /// and at the first field under which the document holds an array, an
    /// object or a number out of range: such a value is never turned into
    /// text on the way.
    pub fn get_insert_params(&self, field_names: &Vec<&String>, row: &Document) -> (outcome: Result<
        Vec<SqlParam>,
        BindError,
    >)
        ensures
            bound_view(outcome) == bind_spec(names_view(field_names@), row@),
    {
        let ghost names = names_view(field_names@);
        match row {
            Document::Other => Err(BindError::NotAnObject),
            Document::Object(entries) => {
                let ghost held = entries_view(entries@);
                let mut params: Vec<SqlParam> = Vec::new();
                let mut k: usize = 0;
                while k < field_names.len()
                    invariant
                        k <= field_names@.len(),
                        names == names_view(field_names@),
                        row@ == SpecDocument::Object(held),
                        params@.len() == k,
                        forall|n: int|
                            0 <= n < k ==> param_of(lookup(held, #[trigger] names[n])) == Some(
                                params@[n]@,
                            ),
                    decreases field_names@.len() - k,
                {
                    assert(names[k as int] == field_names@[k as int]@);
                    match param_for(row.get(field_names[k])) {
                        Some(param) => {
                            params.push(param);
                        },
                        None => {
                            proof {
                                lemma_first_unbound_at(names, held, k as int);
                            }
                            return Err(
                                BindError::NotScalar {
                                    field: field_names[k].clone(),
                                    document: row.clone(),
                                },
                            );
                        },
                    }
                    k += 1;
                }
                proof {
                    lemma_first_unbound_at(names, held, k as int);
                    assert(params_view(params@) =~= Seq::new(
                        names.len(),
                        |n: int| param_of(lookup(held, names[n]))->0,
                    ));
                }
                Ok(params)
            },
        }
    }
}

} // verus!
