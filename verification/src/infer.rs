//! Schema inference: one column type for every field of a batch of documents.
//!
//! The documents are read in their order, and the entries of each document
//! in the document's order. A null value says nothing. Every other value
//! asks a column type of its field, and the whole batch must ask one type
//! of each field: the first entry that asks another type than an earlier
//! entry of the same field, or the first document that is no key/value map,
//! whichever comes first, fails the inference.

use vstd::prelude::*;

use crate::document::{documents_view, entries_view, Document, SpecDocument, SpecEntries};
use crate::entries::has_name;
use crate::field_type::TableSchemaFieldType;
use crate::schema::{Columns, TableSchema};

verus! {

/// Why no schema could be inferred.
#[derive(Clone, Debug, PartialEq)]
pub enum InferError {
    /// The document at `row_index` is no key/value map.
    NotAnObject { row_index: usize },
    /// The document at `row_index` holds, under `field`, a value that asks
    /// the type `found`, where earlier entries asked `existing`.
    TypeConflict {
        field: String,
        row_index: usize,
        existing: TableSchemaFieldType,
        found: TableSchemaFieldType,
    },
}

/// The mathematical value of an [`InferError`].
pub enum SpecInferError {
    NotAnObject { row_index: int },
    TypeConflict {
        field: Seq<char>,
        row_index: int,
        existing: TableSchemaFieldType,
        found: TableSchemaFieldType,
    },
}

impl View for InferError {
    type V = SpecInferError;

    open spec fn view(&self) -> SpecInferError {
        match self {
            InferError::NotAnObject { row_index } => SpecInferError::NotAnObject {
                row_index: *row_index as int,
            },
            InferError::TypeConflict { field, row_index, existing, found } => {
                SpecInferError::TypeConflict {
                    field: field@,
                    row_index: *row_index as int,
                    existing: *existing,
                    found: *found,
                }
            },
        }
    }
}

/// The entries of document `i`; none where the document is no key/value map.
pub open spec fn entries_at(docs: Seq<SpecDocument>, i: int) -> SpecEntries {
    match docs[i] {
        SpecDocument::Object(entries) => entries,
        SpecDocument::Other => Seq::empty(),
    }
}

/// Whether the batch has an entry `j` in a document `i`.
pub open spec fn is_entry(docs: Seq<SpecDocument>, i: int, j: int) -> bool {
    0 <= i < docs.len() && 0 <= j < entries_at(docs, i).len()
}

/// The field that entry `j` of document `i` belongs to.
pub open spec fn name_at(docs: Seq<SpecDocument>, i: int, j: int) -> Seq<char> {
    entries_at(docs, i)[j].0
}

/// The column type that entry `j` of document `i` asks of its field; none
/// where the entry's value is null.
pub open spec fn asked_at(docs: Seq<SpecDocument>, i: int, j: int) -> Option<
    TableSchemaFieldType,
> {
    entries_at(docs, i)[j].1.field_type()
}

/// Whether entry `(a, b)` is read before entry `(i, j)`.
pub open spec fn before(a: int, b: int, i: int, j: int) -> bool {
    a < i || (a == i && b < j)
}

/// Whether entry `(a, b)` belongs to the field `name` and asks a type of it.
pub open spec fn occurs(docs: Seq<SpecDocument>, name: Seq<char>, a: int, b: int) -> bool {
    is_entry(docs, a, b) && name_at(docs, a, b) == name && asked_at(docs, a, b) is Some
}

/// Whether entry `(a, b)` comes before entry `(i, j)`, belongs to the same
/// field, and asks another type of it.
pub open spec fn disagrees(docs: Seq<SpecDocument>, a: int, b: int, i: int, j: int) -> bool {
    occurs(docs, name_at(docs, i, j), a, b) && before(a, b, i, j) && asked_at(docs, a, b)
        != asked_at(docs, i, j)
}

/// Whether entry `(i, j)` asks a type of its field that an earlier entry of
/// the same field does not ask.
pub open spec fn conflict_at(docs: Seq<SpecDocument>, i: int, j: int) -> bool {
    is_entry(docs, i, j) && asked_at(docs, i, j) is Some && exists|a: int, b: int|
        disagrees(docs, a, b, i, j)
}

/// Whether reading the batch fails at `(i, j)`: document `i` is no
/// key/value map (then `j` is zero), or its entry `j` is in conflict.
pub open spec fn fails_at(docs: Seq<SpecDocument>, i: int, j: int) -> bool {
    0 <= i < docs.len() && if docs[i] is Other {
        j == 0
    } else {
        conflict_at(docs, i, j)
    }
}

/// Whether nothing fails before `(i, j)`.
pub open spec fn clean_before(docs: Seq<SpecDocument>, i: int, j: int) -> bool {
    forall|a: int, b: int| before(a, b, i, j) ==> !#[trigger] fails_at(docs, a, b)
}

/// The type that the entries before `(i, j)` ask of the field `name`.
pub open spec fn asked_before(docs: Seq<SpecDocument>, name: Seq<char>, i: int, j: int)
    -> TableSchemaFieldType {
    let (a, b) = choose|a: int, b: int| occurs(docs, name, a, b) && before(a, b, i, j);
    asked_at(docs, a, b)->0
}

/// The mapping of a batch in which nothing fails: every field of which some
/// entry asks a type, to that type.
pub open spec fn schema_of(docs: Seq<SpecDocument>) -> Map<Seq<char>, TableSchemaFieldType> {
    Map::new(
        |name: Seq<char>| exists|a: int, b: int| occurs(docs, name, a, b),
        |name: Seq<char>| asked_before(docs, name, docs.len() as int, 0),
    )
}

/// The columns that the entries before `(i, j)` make: one for each field
/// of which one of them asks a type, in the order in which the fields first
/// do so.
pub open spec fn columns_before(docs: Seq<SpecDocument>, i: int, j: int) -> Columns
    decreases i, j,
{
    if i < 0 || j < 0 {
        Columns::empty()
    } else if j > 0 {
        let columns = columns_before(docs, i, j - 1);
        match asked_at(docs, i, j - 1) {
            Some(field_type) if !has_name(columns, name_at(docs, i, j - 1)) => columns.push(
                (name_at(docs, i, j - 1), field_type),
            ),
            _ => columns,
        }
    } else if i > 0 {
        columns_before(docs, i - 1, entries_at(docs, i - 1).len() as int)
    } else {
        Columns::empty()
    }
}

/// The error for a batch that fails at `(i, j)`.
pub open spec fn failure_at(docs: Seq<SpecDocument>, i: int, j: int) -> SpecInferError {
    if docs[i] is Other {
        SpecInferError::NotAnObject { row_index: i }
    } else {
        SpecInferError::TypeConflict {
            field: name_at(docs, i, j),
            row_index: i,
            existing: asked_before(docs, name_at(docs, i, j), i, j),
            found: asked_at(docs, i, j)->0,
        }
    }
}

/// What inference makes of a batch: the error of the first failure, or,
/// where nothing fails, the mapping of the batch.
pub open spec fn infer_spec(docs: Seq<SpecDocument>) -> Result<
    Map<Seq<char>, TableSchemaFieldType>,
    SpecInferError,
> {
    if exists|i: int, j: int| fails_at(docs, i, j) {
        let (i, j) = choose|i: int, j: int| fails_at(docs, i, j) && clean_before(docs, i, j);
        Err(failure_at(docs, i, j))
    } else {
        Ok(schema_of(docs))
    }
}

/// The mathematical value of an inference's outcome.
pub open spec fn outcome_view(outcome: Result<TableSchema, InferError>) -> Result<
    Map<Seq<char>, TableSchemaFieldType>,
    SpecInferError,
> {
    match outcome {
        Ok(schema) => Ok(schema@),
        Err(error) => Err(error@),
    }
}

/// Whether the mapping `m` holds exactly what the entries before `(i, j)`
/// ask: each field of which one of them asks a type, with that type.
spec fn holds_before(
    docs: Seq<SpecDocument>,
    m: Map<Seq<char>, TableSchemaFieldType>,
    i: int,
    j: int,
) -> bool {
    &&& forall|a: int, b: int|
        #![trigger asked_at(docs, a, b)]
        is_entry(docs, a, b) && before(a, b, i, j) && asked_at(docs, a, b) is Some
            ==> m.contains_key(name_at(docs, a, b)) && m[name_at(docs, a, b)] == asked_at(
            docs,
            a,
            b,
        )->0
    &&& forall|name: Seq<char>| #[trigger]
        m.contains_key(name) ==> exists|a: int, b: int|
            occurs(docs, name, a, b) && before(a, b, i, j)
}

/// Whether the documents before row `i` are key/value maps, and document
/// `i` too where some of its entries have been read.
spec fn objects_before(docs: Seq<SpecDocument>, i: int, j: int) -> bool {
    &&& forall|a: int| 0 <= a < i && a < docs.len() ==> #[trigger] docs[a] is Object
    &&& j > 0 && 0 <= i < docs.len() ==> docs[i] is Object
}

/// Where a mapping holds what was asked before `(i, j)`, nothing failed
/// before `(i, j)`.
proof fn lemma_clean_before(
    docs: Seq<SpecDocument>,
    m: Map<Seq<char>, TableSchemaFieldType>,
    i: int,
    j: int,
)
    requires
        holds_before(docs, m, i, j),
        objects_before(docs, i, j),
    ensures
        clean_before(docs, i, j),
{
    assert forall|a: int, b: int| before(a, b, i, j) implies !#[trigger] fails_at(docs, a, b) by {
        if fails_at(docs, a, b) {
            assert(docs[a] is Object);
            assert(conflict_at(docs, a, b));
            let (a0, b0) = choose|a0: int, b0: int| disagrees(docs, a0, b0, a, b);
            assert(before(a0, b0, i, j));
            assert(asked_at(docs, a0, b0) is Some);
            assert(asked_at(docs, a, b) is Some);
            assert(false);
        }
    }
}

/// The entries before `(i, j)` of one field all ask the type that
/// `asked_before` names, where nothing failed before `(i, j)`.
proof fn lemma_asked_before(
    docs: Seq<SpecDocument>,
    m: Map<Seq<char>, TableSchemaFieldType>,
    name: Seq<char>,
    i: int,
    j: int,
)
    requires
        holds_before(docs, m, i, j),
        m.contains_key(name),
    ensures
        asked_before(docs, name, i, j) == m[name],
{
    let (a, b) = choose|a: int, b: int| occurs(docs, name, a, b) && before(a, b, i, j);
    assert(occurs(docs, name, a, b) && before(a, b, i, j));
    assert(asked_at(docs, a, b) is Some);
}

/// A batch with a first failure is turned down with the error of that
/// failure: there is one first failure at most.
pub proof fn lemma_first_failure(docs: Seq<SpecDocument>, i: int, j: int)
    requires
        fails_at(docs, i, j),
        clean_before(docs, i, j),
    ensures
        infer_spec(docs) == Err::<Map<Seq<char>, TableSchemaFieldType>, SpecInferError>(
            failure_at(docs, i, j),
        ),
{
    let (i2, j2) = choose|i2: int, j2: int| fails_at(docs, i2, j2) && clean_before(docs, i2, j2);
    assert(fails_at(docs, i2, j2) && clean_before(docs, i2, j2));
    if before(i2, j2, i, j) {
        assert(!fails_at(docs, i2, j2));
    }
    if before(i, j, i2, j2) {
        assert(!fails_at(docs, i, j));
    }
    assert(i2 == i && j2 == j);
}

/// A mapping that holds what the whole batch asks is the batch's mapping.
proof fn lemma_whole_batch(docs: Seq<SpecDocument>, m: Map<Seq<char>, TableSchemaFieldType>)
    requires
        holds_before(docs, m, docs.len() as int, 0),
        objects_before(docs, docs.len() as int, 0),
    ensures
        infer_spec(docs) == Ok::<Map<Seq<char>, TableSchemaFieldType>, SpecInferError>(m),
{
    let n = docs.len() as int;
    lemma_clean_before(docs, m, n, 0);
    assert forall|i: int, j: int| !fails_at(docs, i, j) by {
        if fails_at(docs, i, j) {
            assert(before(i, j, n, 0));
        }
    }
    assert(m =~= schema_of(docs)) by {
        assert forall|name: Seq<char>| m.contains_key(name) == schema_of(docs).contains_key(
            name,
        ) by {
            if schema_of(docs).contains_key(name) {
                let (a, b) = choose|a: int, b: int| occurs(docs, name, a, b);
                assert(before(a, b, n, 0));
                assert(asked_at(docs, a, b) is Some);
            }
        }
        assert forall|name: Seq<char>| m.contains_key(name) implies m[name] == schema_of(
            docs,
        )[name] by {
            lemma_asked_before(docs, m, name, n, 0);
        }
    }
}

impl TableSchema {
    /// Infers the schema of a batch of documents.
    ///
    /// Every field under which some document holds a value that is not
    /// null gets the column type of that value; a field that is null or
    /// absent in every document is not recorded. Inference fails at the
    /// first document that is no key/value map, and at the first value
    /// that asks another type of its field than an earlier value did: no
    /// type is widened to fit both. The schema lists its fields in the
    /// order in which they first hold a value that is not null.
    pub fn from_rows(rows: &Vec<Document>) -> (outcome: Result<TableSchema, InferError>)
        ensures
            outcome_view(outcome) == infer_spec(documents_view(rows@)),
            outcome matches Ok(schema) ==> schema.columns() == columns_before(
                documents_view(rows@),
                rows@.len() as int,
                0,
            ),
    {
        let ghost docs = documents_view(rows@);
        let mut schema = TableSchema::empty();
        let mut i: usize = 0;
        while i < rows.len()
            invariant
                i <= rows@.len(),
                docs == documents_view(rows@),
                holds_before(docs, schema@, i as int, 0),
                objects_before(docs, i as int, 0),
                schema.columns() == columns_before(docs, i as int, 0),
            decreases rows@.len() - i,
        {
            assert(docs[i as int] == rows@[i as int]@);
            match &rows[i] {
                Document::Other => {
                    proof {
                        lemma_clean_before(docs, schema@, i as int, 0);
                        lemma_first_failure(docs, i as int, 0);
                    }
                    return Err(InferError::NotAnObject { row_index: i });
                },
                Document::Object(entries) => {
                    assert(entries_at(docs, i as int) == entries_view(entries@));
                    let mut j: usize = 0;
                    while j < entries.len()
                        invariant
                            i < rows@.len(),
                            j <= entries@.len(),
                            docs == documents_view(rows@),
                            docs[i as int] is Object,
                            entries_at(docs, i as int) == entries_view(entries@),
                            holds_before(docs, schema@, i as int, j as int),
                            objects_before(docs, i as int, j as int),
                            schema.columns() == columns_before(docs, i as int, j as int),
                        decreases entries@.len() - j,
                    {
                        let ghost m = schema@;
                        let ghost name = entries@[j as int].0@;
                        assert(is_entry(docs, i as int, j as int));
                        assert(name_at(docs, i as int, j as int) == name);
                        assert(asked_at(docs, i as int, j as int) == entries@[j as int].1@.field_type());
                        match entries[j].1.field_type() {
                            None => {},
                            Some(found) => {
                                match schema.get(&entries[j].0) {
                                    Some(existing) => {
                                        if existing != found {
                                            proof {
                                                lemma_clean_before(docs, m, i as int, j as int);
                                                lemma_asked_before(docs, m, name, i as int, j as int);
                                                let (a, b) = choose|a: int, b: int|
                                                    occurs(docs, name, a, b) && before(
                                                        a,
                                                        b,
                                                        i as int,
                                                        j as int,
                                                    );
                                                assert(asked_at(docs, a, b) is Some);
                                                assert(disagrees(docs, a, b, i as int, j as int));
                                                lemma_first_failure(docs, i as int, j as int);
                                            }
                                            return Err(
                                                InferError::TypeConflict {
                                                    field: entries[j].0.clone(),
                                                    row_index: i,
                                                    existing,
                                                    found,
                                                },
                                            );
                                        }
                                    },
                                    None => {
                                        schema.record(entries[j].0.clone(), found);
                                        assert(occurs(docs, name, i as int, j as int));
                                    },
                                }
                            },
                        }
                        j += 1;
                        assert(holds_before(docs, schema@, i as int, j as int)) by {
                            assert forall|a: int, b: int|
                                #![trigger asked_at(docs, a, b)]
                                is_entry(docs, a, b) && before(a, b, i as int, j as int)
                                    && asked_at(docs, a, b) is Some implies schema@.contains_key(
                                    name_at(docs, a, b),
                                ) && schema@[name_at(docs, a, b)] == asked_at(docs, a, b)->0 by {
                                if before(a, b, i as int, j as int - 1) {
                                    assert(m.contains_key(name_at(docs, a, b)));
                                }
                            }
                            assert forall|key: Seq<char>| #[trigger]
                                schema@.contains_key(key) implies exists|a: int, b: int|
                                occurs(docs, key, a, b) && before(a, b, i as int, j as int) by {
                                if m.contains_key(key) {
                                    let (a, b) = choose|a: int, b: int|
                                        occurs(docs, key, a, b) && before(
                                            a,
                                            b,
                                            i as int,
                                            j as int - 1,
                                        );
                                    assert(occurs(docs, key, a, b) && before(
                                        a,
                                        b,
                                        i as int,
                                        j as int,
                                    ));
                                } else {
                                    assert(occurs(docs, key, i as int, j as int - 1) && before(
                                        i as int,
                                        j as int - 1,
                                        i as int,
                                        j as int,
                                    ));
                                }
                            }
                        }
                    }
                    assert(holds_before(docs, schema@, i as int + 1, 0)) by {
                        assert forall|key: Seq<char>| #[trigger]
                            schema@.contains_key(key) implies exists|a: int, b: int|
                            occurs(docs, key, a, b) && before(a, b, i as int + 1, 0) by {
                            let (a, b) = choose|a: int, b: int|
                                occurs(docs, key, a, b) && before(a, b, i as int, j as int);
                            assert(occurs(docs, key, a, b) && before(a, b, i as int + 1, 0));
                        }
                    }
                },
            }
            i += 1;
        }
        proof {
            lemma_whole_batch(docs, schema@);
        }
        Ok(schema)
    }
}

} // verus!
