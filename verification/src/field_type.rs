//! The closed set of column types.

use vstd::prelude::*;

verus! {

/// The scalar SQL types a column can have.
#[derive(Clone, Copy, Debug, PartialEq, Eq, Structural)]
pub enum TableSchemaFieldType {
    Int,
    Float,
    Text,
    Bool,
}

impl TableSchemaFieldType {
    /// The SQL keyword that declares a column of this type.
    pub open spec fn sql_keyword(self) -> Seq<char> {
        match self {
            TableSchemaFieldType::Int => "INT"@,
            TableSchemaFieldType::Float => "REAL"@,
            TableSchemaFieldType::Text => "TEXT"@,
            TableSchemaFieldType::Bool => "BOOLEAN"@,
        }
    }

    /// Returns the SQL keyword that declares a column of this type.
    pub fn sql_type(&self) -> (keyword: &'static str)
        ensures
            keyword@ == self.sql_keyword(),
    {
        match self {
            TableSchemaFieldType::Int => "INT",
            TableSchemaFieldType::Float => "REAL",
            TableSchemaFieldType::Text => "TEXT",
            TableSchemaFieldType::Bool => "BOOLEAN",
        }
    }
}

} // verus!
