//! The table schema: a mapping from field names to column types.

use vstd::prelude::*;
use vstd::std_specs::cmp::PartialEqSpecImpl;
use vstd::string::StringExecFns;

use crate::entries::{
    distinct_names, find, has_name, lemma_has_name, lemma_position_from,
    lemma_position_of_first, position,
};
use crate::field_type::TableSchemaFieldType;
use crate::text::{
    column_definitions, comma_list, create_table_text, insert_text, lemma_comma_list_grows,
    placeholders, push_decimal, push_quoted, push_separator, quoted_names, separator_before,
};

verus! {

/// The columns of a table in their order, each by its name and type.
pub type Columns = Seq<(Seq<char>, TableSchemaFieldType)>;

/// The mapping that a list of columns stands for: each name to the type of
/// the first column of that name.
pub open spec fn columns_map(columns: Columns) -> Map<Seq<char>, TableSchemaFieldType> {
    Map::new(
        |name: Seq<char>| has_name(columns, name),
        |name: Seq<char>| columns[position(columns, name)].1,
    )
}

/// The names of a list of columns, in the columns' order.
pub open spec fn column_names(columns: Columns) -> Seq<Seq<char>> {
    Seq::new(columns.len(), |i: int| columns[i].0)
}

/// The names that a list of borrowed strings holds.
pub open spec fn names_view(names: Seq<&String>) -> Seq<Seq<char>> {
    Seq::new(names.len(), |i: int| names[i]@)
}

/// A mapping from field names to column types.
///
/// The fields are held as a list of columns without repeated names, so that
/// every statement made from one schema lists the columns in one order. The
/// order has no other meaning: two schemas are equal when they map the same
/// names to the same types.
#[derive(Debug)]
pub struct TableSchema {
    fields: Vec<(String, TableSchemaFieldType)>,
}

impl View for TableSchema {
    type V = Map<Seq<char>, TableSchemaFieldType>;

    open spec fn view(&self) -> Map<Seq<char>, TableSchemaFieldType> {
        columns_map(self.columns())
    }
}

impl Clone for TableSchema {
    /// A schema with the same columns in the same order.
    fn clone(&self) -> (copy: TableSchema)
        ensures
            copy.columns() == self.columns(),
    {
        let mut fields: Vec<(String, TableSchemaFieldType)> = Vec::new();
        let mut i: usize = 0;
        while i < self.fields.len()
            invariant
                i <= self.fields@.len(),
                fields@.len() == i,
                forall|k: int|
                    0 <= k < i ==> (#[trigger] fields@[k]).0@ == self.fields@[k].0@ && fields@[k].1
                        == self.fields@[k].1,
            decreases self.fields@.len() - i,
        {
            fields.push((self.fields[i].0.clone(), self.fields[i].1));
            i += 1;
        }
        proof {
            use_type_invariant(self);
            assert(Seq::new(fields@.len(), |i: int| (fields@[i].0@, fields@[i].1))
                =~= self.columns());
        }
        TableSchema { fields }
    }
}

impl PartialEq for TableSchema {
    /// Two schemas are equal when they map the same names to the same
    /// types, in whatever order they hold their columns.
    fn eq(&self, other: &TableSchema) -> (equal: bool) {
        let equal = self.within(other) && other.within(self);
        assert(equal == (self@ == other@)) by {
            if equal {
                assert(self@ =~= other@);
            }
        }
        equal
    }
}

impl PartialEqSpecImpl for TableSchema {
    open spec fn obeys_eq_spec() -> bool {
        true
    }

    open spec fn eq_spec(&self, other: &TableSchema) -> bool {
        self@ == other@
    }
}

impl TableSchema {
    /// The columns of the schema, in the order in which every statement
    /// made from it lists them.
    pub closed spec fn columns(&self) -> Columns {
        Seq::new(self.fields@.len(), |i: int| (self.fields@[i].0@, self.fields@[i].1))
    }

    /// No two columns have the same name.
    #[verifier::type_invariant]
    pub closed spec fn well_formed(&self) -> bool {
        distinct_names(self.columns())
    }

    /// A schema without fields.
    pub fn empty() -> (schema: TableSchema)
        ensures
            schema.columns() == Columns::empty(),
            schema@ == Map::<Seq<char>, TableSchemaFieldType>::empty(),
    {
        let schema = TableSchema { fields: Vec::new() };
        assert(schema.columns() =~= Columns::empty());
        assert(schema@ =~= Map::<Seq<char>, TableSchemaFieldType>::empty());
        schema
    }

    /// Whether the schema has no field.
    pub fn is_empty(&self) -> (empty: bool)
        ensures
            empty == (self.columns().len() == 0),
            empty == (self@ == Map::<Seq<char>, TableSchemaFieldType>::empty()),
    {
        proof {
            if self.fields@.len() > 0 {
                lemma_has_name(self.columns(), 0);
                assert(self@.contains_key(self.columns()[0].0));
            } else {
                assert(self@ =~= Map::<Seq<char>, TableSchemaFieldType>::empty());
            }
        }
        self.fields.len() == 0
    }

    /// The type of the field `name`, if the schema has that field.
    pub fn get(&self, name: &String) -> (found: Option<TableSchemaFieldType>)
        ensures
            found == if self@.contains_key(name@) {
                Some(self@[name@])
            } else {
                None
            },
    {
        let at = find(&self.fields, name);
        proof {
            lemma_position_of_first(self.columns(), name@, at as int);
        }
        if at < self.fields.len() {
            Some(self.fields[at].1)
        } else {
            None
        }
    }

    /// Records the field `name` with the type `field_type`, as the last
    /// column, unless the schema has a field of that name already: a field
    /// keeps the type it was first recorded with. Returns whether the field
    /// was recorded.
    pub fn record(&mut self, name: String, field_type: TableSchemaFieldType) -> (recorded: bool)
        ensures
            recorded == !old(self)@.contains_key(name@),
            final(self).columns() == if recorded {
                old(self).columns().push((name@, field_type))
            } else {
                old(self).columns()
            },
            final(self)@ == if recorded {
                old(self)@.insert(name@, field_type)
            } else {
                old(self)@
            },
    {
        let at = find(&self.fields, &name);
        proof {
            use_type_invariant(&*self);
            lemma_position_of_first(self.columns(), name@, at as int);
        }
        if at < self.fields.len() {
            return false;
        }
        let ghost before = self.columns();
        // The columns leave the schema and come back whole, so that the
        // schema never holds a list that is half changed.
        let mut taken = TableSchema::empty();
        std::mem::swap(self, &mut taken);
        let mut fields = taken.fields;
        fields.push((name, field_type));
        let ghost after = Seq::new(fields@.len(), |i: int| (fields@[i].0@, fields@[i].1));
        proof {
            assert(after =~= before.push((name@, field_type)));
            assert(distinct_names(after));
            assert(columns_map(after) =~= columns_map(before).insert(name@, field_type)) by {
                assert forall|key: Seq<char>|
                    has_name(after, key) == (key == name@ || has_name(before, key)) by {
                    lemma_position_from(after, key, 0);
                    lemma_position_from(before, key, 0);
                    let p = position(before, key);
                    let q = position(after, key);
                    if p < before.len() {
                        assert(after[p] == before[p]);
                    }
                    if q < before.len() {
                        assert(after[q] == before[q]);
                    }
                    if key == name@ {
                        assert(after[before.len() as int].0 == key);
                    }
                }
                assert forall|key: Seq<char>| has_name(before, key) && key != name@ implies after[position(
                    after,
                    key,
                )].1 == before[position(before, key)].1 by {
                    lemma_position_from(before, key, 0);
                    let p = position(before, key);
                    assert forall|k: int| 0 <= k < p implies (#[trigger] after[k]).0 != key by {
                        assert(after[k] == before[k]);
                    }
                    assert(after[p] == before[p]);
                    lemma_position_of_first(after, key, p);
                }
                lemma_position_of_first(after, name@, before.len() as int);
            }
        }
        *self = TableSchema { fields };
        true
    }

    /// The `CREATE TABLE` statement for a table of this schema: one column
    /// for each field, in the order of [`Self::columns`], with the table's
    /// and the columns' names between double quotes. The statement declares
    /// no key, constraint or index.
    pub fn get_create_table_sql_string(&self, table_name: &str) -> (sql: String)
        ensures
            sql@ == create_table_text(table_name@, self.columns()),
    {
        let ghost definitions = column_definitions(self.columns());
        let mut sql = String::from_str("CREATE TABLE ");
        push_quoted(&mut sql, table_name);
        sql.append(" (");
        let ghost head = sql@;
        let mut i: usize = 0;
        while i < self.fields.len()
            invariant
                i <= self.fields@.len(),
                definitions == column_definitions(self.columns()),
                sql@ == head + comma_list(definitions.take(i as int)),
            decreases self.fields@.len() - i,
        {
            push_separator(&mut sql, i);
            push_quoted(&mut sql, self.fields[i].0.as_str());
            sql.append(" ");
            sql.append(self.fields[i].1.sql_type());
            proof {
                lemma_comma_list_grows(definitions, i as int);
                assert(sql@ =~= head + (comma_list(definitions.take(i as int))
                    + separator_before(i as int) + definitions[i as int]));
            }
            i += 1;
        }
        sql.append(")");
        proof {
            assert(definitions.take(i as int) =~= definitions);
            assert(sql@ =~= create_table_text(table_name@, self.columns()));
        }
        sql
    }

    /// The names of the fields, in the order of [`Self::columns`]. No name
    /// comes twice.
    pub fn field_names(&self) -> (names: Vec<&String>)
        ensures
            names_view(names@) == column_names(self.columns()),
            distinct_names(self.columns()),
    {
        let mut names: Vec<&String> = Vec::new();
        let mut i: usize = 0;
        while i < self.fields.len()
            invariant
                i <= self.fields@.len(),
                names@.len() == i,
                forall|k: int| 0 <= k < i ==> (#[trigger] names@[k])@ == self.fields@[k].0@,
            decreases self.fields@.len() - i,
        {
            names.push(&self.fields[i].0);
            i += 1;
        }
        proof {
            use_type_invariant(self);
            assert(names_view(names@) =~= column_names(self.columns()));
        }
        names
    }

    /// The `INSERT` statement template for a table of this schema, and the
    /// order of fields that it fixes: the names of the columns in the order
    /// of [`Self::columns`], none of them twice. The template names each
    /// column between double quotes and has one numbered placeholder for
    /// each, `?1` for the first.
    pub fn get_insert_sql(&self, table_name: &str) -> (insert: (String, Vec<&String>))
        ensures
            insert.0@ == insert_text(table_name@, column_names(self.columns())),
            names_view(insert.1@) == column_names(self.columns()),
            distinct_names(self.columns()),
    {
        let ghost names = column_names(self.columns());
        let ghost quoted_list = quoted_names(names);
        let ghost marks = placeholders(names.len());
        let field_names = self.field_names();
        let mut sql = String::from_str("INSERT INTO ");
        push_quoted(&mut sql, table_name);
        sql.append(" (");
        let ghost head = sql@;
        let mut i: usize = 0;
        while i < self.fields.len()
            invariant
                i <= self.fields@.len(),
                names == column_names(self.columns()),
                quoted_list == quoted_names(names),
                sql@ == head + comma_list(quoted_list.take(i as int)),
            decreases self.fields@.len() - i,
        {
            push_separator(&mut sql, i);
            push_quoted(&mut sql, self.fields[i].0.as_str());
            proof {
                lemma_comma_list_grows(quoted_list, i as int);
                assert(sql@ =~= head + (comma_list(quoted_list.take(i as int))
                    + separator_before(i as int) + quoted_list[i as int]));
            }
            i += 1;
        }
        sql.append(") VALUES (");
        let ghost middle = sql@;
        let count = self.fields.len();
        let mut j: usize = 0;
        while j < count
            invariant
                j <= count,
                count == names.len(),
                marks == placeholders(names.len()),
                sql@ == middle + comma_list(marks.take(j as int)),
            decreases count - j,
        {
            push_separator(&mut sql, j);
            sql.append("?");
            push_decimal(&mut sql, j + 1);
            proof {
                lemma_comma_list_grows(marks, j as int);
                assert(sql@ =~= middle + (comma_list(marks.take(j as int))
                    + separator_before(j as int) + marks[j as int]));
            }
            j += 1;
        }
        sql.append(");");
        proof {
            assert(quoted_list.take(i as int) =~= quoted_list);
            assert(marks.take(j as int) =~= marks);
            assert(sql@ =~= insert_text(table_name@, names));
        }
        (sql, field_names)
    }

    /// Whether every field of this schema is a field of `other`, with the
    /// same type.
    fn within(&self, other: &TableSchema) -> (all: bool)
        ensures
            all == forall|name: Seq<char>| #[trigger]
                self@.contains_key(name) ==> other@.contains_key(name) && other@[name]
                    == self@[name],
    {
        let ghost columns = self.columns();
        proof {
            use_type_invariant(self);
        }
        let mut i: usize = 0;
        while i < self.fields.len()
            invariant
                i <= self.fields@.len(),
                columns == self.columns(),
                distinct_names(columns),
                forall|k: int|
                    0 <= k < i ==> other@.contains_key((#[trigger] columns[k]).0)
                        && other@[columns[k].0] == columns[k].1,
            decreases self.fields@.len() - i,
        {
            proof {
                lemma_has_name(columns, i as int);
            }
            match other.get(&self.fields[i].0) {
                Some(field_type) => {
                    if field_type != self.fields[i].1 {
                        assert(self@.contains_key(columns[i as int].0));
                        return false;
                    }
                },
                None => {
                    assert(self@.contains_key(columns[i as int].0));
                    return false;
                },
            }
            i += 1;
        }
        proof {
            assert forall|name: Seq<char>| #[trigger] self@.contains_key(name) implies other@.contains_key(
                name,
            ) && other@[name] == self@[name] by {
                lemma_position_from(columns, name, 0);
                let p = position(columns, name);
                assert(columns[p].0 == name);
            }
        }
        true
    }
}

} // verus!
