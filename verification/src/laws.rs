//! What holds of inference, binding and the text of statements on every
//! input.

use vstd::arithmetic::div_mod::{
    lemma_div_multiples_vanish, lemma_fundamental_div_mod, lemma_mod_multiples_basic,
};
use vstd::arithmetic::power2::{lemma_pow2_pos, pow2};
use vstd::prelude::*;
use vstd::seq_lib::to_multiset_contains;

use crate::bind::{bind_spec, first_unbound, lemma_first_unbound, param_of, SpecBindError};
use crate::document::{SpecDocument, SpecEntries, SpecFieldValue};
use crate::entries::lookup;
use crate::field_type::TableSchemaFieldType;
use crate::number::{float_exponent, float_fraction, float_magnitude, LEADING_BIT};
use crate::text::{escaped, quoted};
use crate::infer::{
    asked_at, asked_before, before, clean_before, conflict_at, disagrees, entries_at, fails_at,
    infer_spec, is_entry, lemma_first_failure, name_at, occurs, schema_of, SpecInferError,
};

verus! {

/// Whether two documents hold the same entries, each as often as the
/// other, in whatever order.
pub open spec fn same_entries(d1: SpecDocument, d2: SpecDocument) -> bool {
    match (d1, d2) {
        (SpecDocument::Object(e1), SpecDocument::Object(e2)) => e1.to_multiset()
            == e2.to_multiset(),
        (SpecDocument::Other, SpecDocument::Other) => true,
        _ => false,
    }
}

/// Whether each document of one batch holds the same entries as the
/// document at its place in the other.
pub open spec fn same_batches(docs1: Seq<SpecDocument>, docs2: Seq<SpecDocument>) -> bool {
    &&& docs1.len() == docs2.len()
    &&& forall|i: int| 0 <= i < docs1.len() ==> same_entries(#[trigger] docs1[i], docs2[i])
}

/// Two batches hold the same entries whichever of them is named first.
proof fn lemma_same_batches_both_ways(docs1: Seq<SpecDocument>, docs2: Seq<SpecDocument>)
    requires
        same_batches(docs1, docs2),
    ensures
        same_batches(docs2, docs1),
{
    assert forall|k: int| 0 <= k < docs2.len() implies same_entries(
        #[trigger] docs2[k],
        docs1[k],
    ) by {
        assert(same_entries(docs1[k], docs2[k]));
    }
}

/// An entry of one batch stands, at some place of the same document, in
/// every batch with the same entries.
proof fn lemma_entry_moves(docs1: Seq<SpecDocument>, docs2: Seq<SpecDocument>, i: int, j: int)
    requires
        same_batches(docs1, docs2),
        is_entry(docs1, i, j),
    ensures
        exists|j2: int|
            is_entry(docs2, i, j2) && #[trigger] entries_at(docs2, i)[j2] == entries_at(
                docs1,
                i,
            )[j],
{
    let e1 = entries_at(docs1, i);
    let e2 = entries_at(docs2, i);
    let x = e1[j];
    assert(same_entries(docs1[i], docs2[i]));
    assert(e1.contains(x));
    to_multiset_contains(e1, x);
    to_multiset_contains(e2, x);
    let j2 = choose|j2: int| 0 <= j2 < e2.len() && e2[j2] == x;
    assert(is_entry(docs2, i, j2) && entries_at(docs2, i)[j2] == x);
}

/// Of two entries of one field that ask different types, the later one is
/// in conflict.
proof fn lemma_pair_conflicts(docs: Seq<SpecDocument>, i1: int, j1: int, i2: int, j2: int)
    requires
        is_entry(docs, i1, j1),
        is_entry(docs, i2, j2),
        name_at(docs, i1, j1) == name_at(docs, i2, j2),
        asked_at(docs, i1, j1) is Some,
        asked_at(docs, i2, j2) is Some,
        asked_at(docs, i1, j1) != asked_at(docs, i2, j2),
    ensures
        conflict_at(docs, i1, j1) || conflict_at(docs, i2, j2),
{
    if before(i1, j1, i2, j2) {
        assert(disagrees(docs, i1, j1, i2, j2));
    } else {
        assert(before(i2, j2, i1, j1));
        assert(disagrees(docs, i2, j2, i1, j1));
    }
}

/// A batch without conflicts stays without conflicts when the entries of
/// its documents change places.
proof fn lemma_conflicts_move(docs1: Seq<SpecDocument>, docs2: Seq<SpecDocument>)
    requires
        same_batches(docs1, docs2),
        forall|i: int, j: int| !conflict_at(docs1, i, j),
    ensures
        forall|i: int, j: int| !conflict_at(docs2, i, j),
{
    assert forall|i: int, j: int| !conflict_at(docs2, i, j) by {
        if conflict_at(docs2, i, j) {
            let (a, b) = choose|a: int, b: int| disagrees(docs2, a, b, i, j);
            lemma_same_batches_both_ways(docs1, docs2);
            lemma_entry_moves(docs2, docs1, i, j);
            lemma_entry_moves(docs2, docs1, a, b);
            let j1 = choose|j1: int|
                is_entry(docs1, i, j1) && #[trigger] entries_at(docs1, i)[j1] == entries_at(
                    docs2,
                    i,
                )[j];
            let b1 = choose|b1: int|
                is_entry(docs1, a, b1) && #[trigger] entries_at(docs1, a)[b1] == entries_at(
                    docs2,
                    a,
                )[b];
            lemma_pair_conflicts(docs1, a, b1, i, j1);
        }
    }
}

/// Every failure has a first failure at or before it.
proof fn lemma_first_failure_exists(docs: Seq<SpecDocument>, i: int, j: int)
    requires
        fails_at(docs, i, j),
    ensures
        exists|a: int, b: int| #[trigger] fails_at(docs, a, b) && clean_before(docs, a, b),
    decreases i, j,
{
    if !clean_before(docs, i, j) {
        let (a, b) = choose|a: int, b: int| before(a, b, i, j) && fails_at(docs, a, b);
        lemma_first_failure_exists(docs, a, b);
    }
}

/// Inference does not depend on the order in which a document enumerates
/// its entries: of a batch without type conflicts, and of the batch with
/// the same documents enumerated in any other order, it makes the same.
pub proof fn law_entry_order_is_irrelevant(docs1: Seq<SpecDocument>, docs2: Seq<SpecDocument>)
    requires
        same_batches(docs1, docs2),
        forall|i: int, j: int| !conflict_at(docs1, i, j),
    ensures
        infer_spec(docs1) == infer_spec(docs2),
{
    lemma_conflicts_move(docs1, docs2);
    lemma_same_batches_both_ways(docs1, docs2);
    if exists|i: int, j: int| fails_at(docs1, i, j) {
        let (i0, j0) = choose|i: int, j: int| fails_at(docs1, i, j);
        lemma_first_failure_exists(docs1, i0, j0);
        let (i, j) = choose|a: int, b: int|
            #[trigger] fails_at(docs1, a, b) && clean_before(docs1, a, b);
        assert(docs1[i] is Other && j == 0);
        assert(same_entries(docs1[i], docs2[i]));
        assert(fails_at(docs2, i, j));
        assert forall|a: int, b: int| before(a, b, i, j) implies !#[trigger] fails_at(
            docs2,
            a,
            b,
        ) by {
            if fails_at(docs2, a, b) {
                assert(same_entries(docs1[a], docs2[a]));
                assert(fails_at(docs1, a, b));
            }
        }
        lemma_first_failure(docs1, i, j);
        lemma_first_failure(docs2, i, j);
    } else {
        assert forall|i: int, j: int| !fails_at(docs2, i, j) by {
            if fails_at(docs2, i, j) {
                assert(same_entries(docs1[i], docs2[i]));
                assert(fails_at(docs1, i, 0));
            }
        }
        assert(schema_of(docs1) =~= schema_of(docs2)) by {
            assert forall|name: Seq<char>| #[trigger]
                schema_of(docs1).contains_key(name) implies schema_of(docs2).contains_key(
                name,
            ) by {
                let (a, b) = choose|a: int, b: int| occurs(docs1, name, a, b);
                lemma_entry_moves(docs1, docs2, a, b);
                let b2 = choose|b2: int|
                    is_entry(docs2, a, b2) && #[trigger] entries_at(docs2, a)[b2] == entries_at(
                        docs1,
                        a,
                    )[b];
                assert(occurs(docs2, name, a, b2));
            }
            assert forall|name: Seq<char>| #[trigger]
                schema_of(docs2).contains_key(name) implies schema_of(docs1).contains_key(name)
                && schema_of(docs1)[name] == schema_of(docs2)[name] by {
                let n = docs1.len() as int;
                let (a, b) = choose|a: int, b: int| occurs(docs2, name, a, b);
                lemma_entry_moves(docs2, docs1, a, b);
                let b1 = choose|b1: int|
                    is_entry(docs1, a, b1) && #[trigger] entries_at(docs1, a)[b1] == entries_at(
                        docs2,
                        a,
                    )[b];
                assert(occurs(docs1, name, a, b1) && before(a, b1, n, 0));
                assert(occurs(docs2, name, a, b) && before(a, b, n, 0));
                let (c1, d1) = choose|c: int, d: int|
                    occurs(docs1, name, c, d) && before(c, d, n, 0);
                let (c2, d2) = choose|c: int, d: int|
                    occurs(docs2, name, c, d) && before(c, d, n, 0);
                lemma_entry_moves(docs2, docs1, c2, d2);
                let d3 = choose|d3: int|
                    is_entry(docs1, c2, d3) && #[trigger] entries_at(docs1, c2)[d3]
                        == entries_at(docs2, c2)[d2];
                if asked_at(docs1, c1, d1) != asked_at(docs1, c2, d3) {
                    lemma_pair_conflicts(docs1, c1, d1, c2, d3);
                }
            }
        }
    }
}

/// The schema inferred from a batch holds what the values ask: the field of
/// every value that is not null, with the column type of that value.
pub proof fn law_schema_holds_what_is_asked(docs: Seq<SpecDocument>, i: int, j: int)
    requires
        is_entry(docs, i, j),
        asked_at(docs, i, j) is Some,
    ensures
        infer_spec(docs) matches Ok(schema) ==> schema.contains_key(name_at(docs, i, j))
            && Some(schema[name_at(docs, i, j)]) == asked_at(docs, i, j),
{
    if infer_spec(docs) is Ok {
        let name = name_at(docs, i, j);
        let n = docs.len() as int;
        assert(occurs(docs, name, i, j) && before(i, j, n, 0));
        let (a, b) = choose|a: int, b: int| occurs(docs, name, a, b) && before(a, b, n, 0);
        if asked_at(docs, a, b) != asked_at(docs, i, j) {
            lemma_pair_conflicts(docs, a, b, i, j);
            if conflict_at(docs, a, b) {
                assert(fails_at(docs, a, b));
            } else {
                assert(fails_at(docs, i, j));
            }
        }
    }
}

/// A field that is null or absent in every document of a batch is no field
/// of the schema inferred from the batch.
pub proof fn law_null_field_is_absent(docs: Seq<SpecDocument>, name: Seq<char>)
    requires
        forall|i: int, j: int|
            is_entry(docs, i, j) && #[trigger] name_at(docs, i, j) == name ==> entries_at(
                docs,
                i,
            )[j].1 == SpecFieldValue::Null,
    ensures
        infer_spec(docs) matches Ok(schema) ==> !schema.contains_key(name),
{
    if schema_of(docs).contains_key(name) {
        let (a, b) = choose|a: int, b: int| occurs(docs, name, a, b);
        assert(name_at(docs, a, b) == name);
    }
}

/// A batch in which two values of one field ask different column types has
/// no schema.
pub proof fn law_conflict_fails(docs: Seq<SpecDocument>, i1: int, j1: int, i2: int, j2: int)
    requires
        is_entry(docs, i1, j1),
        is_entry(docs, i2, j2),
        name_at(docs, i1, j1) == name_at(docs, i2, j2),
        asked_at(docs, i1, j1) is Some,
        asked_at(docs, i2, j2) is Some,
        asked_at(docs, i1, j1) != asked_at(docs, i2, j2),
    ensures
        infer_spec(docs) is Err,
{
    lemma_pair_conflicts(docs, i1, j1, i2, j2);
    if conflict_at(docs, i1, j1) {
        assert(fails_at(docs, i1, j1));
    } else {
        assert(fails_at(docs, i2, j2));
    }
}

/// Where the first thing to fail in a batch is a value that asks another
/// type of its field than the values before it, the batch is turned down
/// with a type conflict that names this field and the document of the
/// value, with the type that the values before it asked and the type that
/// this one asks.
pub proof fn law_first_conflict_names_field(docs: Seq<SpecDocument>, i: int, j: int)
    requires
        conflict_at(docs, i, j),
        clean_before(docs, i, j),
    ensures
        infer_spec(docs) matches Err(
            SpecInferError::TypeConflict { field, row_index, existing, found },
        ) && field == name_at(docs, i, j) && row_index == i && Some(found) == asked_at(docs, i, j)
            && existing != found && forall|a: int, b: int|
            occurs(docs, field, a, b) && before(a, b, i, j) ==> #[trigger] asked_at(docs, a, b)
                == Some(existing),
{
    lemma_first_failure(docs, i, j);
    let name = name_at(docs, i, j);
    let (a0, b0) = choose|a: int, b: int| disagrees(docs, a, b, i, j);
    assert(occurs(docs, name, a0, b0) && before(a0, b0, i, j));
    let (c, d) = choose|a: int, b: int| occurs(docs, name, a, b) && before(a, b, i, j);
    let existing = asked_before(docs, name, i, j);
    assert forall|a: int, b: int| occurs(docs, name, a, b) && before(a, b, i, j) implies #[trigger] asked_at(
        docs,
        a,
        b,
    ) == Some(existing) by {
        if asked_at(docs, a, b) != asked_at(docs, c, d) {
            lemma_pair_conflicts(docs, a, b, c, d);
            if conflict_at(docs, a, b) {
                assert(fails_at(docs, a, b));
            } else {
                assert(fails_at(docs, c, d));
            }
        }
    }
    assert(asked_at(docs, a0, b0) == Some(existing));
}

/// The empty batch has the empty schema.
pub proof fn law_empty_batch()
    ensures
        infer_spec(Seq::<SpecDocument>::empty()) == Ok::<
            Map<Seq<char>, TableSchemaFieldType>,
            SpecInferError,
        >(Map::empty()),
{
    let docs = Seq::<SpecDocument>::empty();
    assert(schema_of(docs) =~= Map::empty());
}

/// A document that holds an array or an object under one of the fields to
/// bind gives no parameters: binding fails, and names a field whose value
/// is no scalar.
pub proof fn law_structured_value_is_not_bound(
    names: Seq<Seq<char>>,
    entries: SpecEntries,
    k: int,
)
    requires
        0 <= k < names.len(),
        lookup(entries, names[k]) == Some(SpecFieldValue::Array) || lookup(entries, names[k])
            == Some(SpecFieldValue::Object),
    ensures
        bind_spec(names, SpecDocument::Object(entries)) matches Err(
            SpecBindError::NotScalar { field, document },
        ) && param_of(lookup(entries, field)) is None && document == SpecDocument::Object(
            entries,
        ),
{
    lemma_first_unbound(names, entries, 0);
    let at = first_unbound(names, entries, 0);
    if at >= names.len() {
        assert(param_of(lookup(entries, names[k])) is Some);
    }
}

/// What stands for a name between double quotes, read back: each pair of
/// double quotes is one double quote of the name.
pub open spec fn unescaped(text: Seq<char>) -> Seq<char>
    decreases text.len(),
{
    if text.len() == 0 {
        Seq::empty()
    } else if text.len() >= 2 && text[text.len() - 1] == '"' && text[text.len() - 2] == '"' {
        unescaped(text.take(text.len() - 2)).push('"')
    } else {
        unescaped(text.drop_last()).push(text.last())
    }
}

/// A name between double quotes reads back as the name.
pub proof fn law_escaped_reads_back(name: Seq<char>)
    ensures
        unescaped(escaped(name)) == name,
    decreases name.len(),
{
    if name.len() > 0 {
        reveal_strlit("\"\"");
        let front = name.drop_last();
        law_escaped_reads_back(front);
        let text = escaped(name);
        if name.last() == '"' {
            assert(text.take(text.len() - 2) =~= escaped(front));
        } else {
            assert(text.drop_last() =~= escaped(front));
        }
        assert(front.push(name.last()) =~= name);
    }
}

/// Two names that differ are quoted differently: no table or column is
/// taken for another.
pub proof fn law_quoting_keeps_names_apart(a: Seq<char>, b: Seq<char>)
    requires
        quoted(a) == quoted(b),
    ensures
        a == b,
{
    reveal_strlit("\"");
    assert(escaped(a) =~= quoted(a).subrange(1, quoted(a).len() - 1));
    assert(escaped(b) =~= quoted(b).subrange(1, quoted(b).len() - 1));
    law_escaped_reads_back(a);
    law_escaped_reads_back(b);
}

/// A float whose exponent field is from 1023 to 1075 is the whole number
/// `n`, up to its sign, exactly where its significand is `n` times two to
/// the power 1075 less the exponent field: where the float has no bit below
/// the units.
pub proof fn law_whole_float(bits: u64, n: int)
    requires
        1023 <= float_exponent(bits) <= 1075,
    ensures
        float_magnitude(bits) == Some(n) <==> LEADING_BIT + float_fraction(bits) == n * pow2(
            (1075 - float_exponent(bits)) as nat,
        ),
{
    let significand = LEADING_BIT + float_fraction(bits);
    let unit = pow2((1075 - float_exponent(bits)) as nat) as int;
    lemma_pow2_pos((1075 - float_exponent(bits)) as nat);
    lemma_fundamental_div_mod(significand, unit);
    if significand == n * unit {
        lemma_mod_multiples_basic(n, unit);
        lemma_div_multiples_vanish(n, unit);
        assert(unit * n == n * unit) by (nonlinear_arith);
    }
    if float_magnitude(bits) == Some(n) {
        assert(unit * (significand / unit) == (significand / unit) * unit) by (nonlinear_arith);
    }
}

} // verus!
