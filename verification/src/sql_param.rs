//! The parameters of a prepared statement.

use vstd::prelude::*;
use vstd::string::StringExecFns;

verus! {

/// One positional parameter of an `INSERT` statement.
#[derive(Clone, Debug, PartialEq)]
pub enum SqlParam {
    Int(i64),
    /// A 64-bit float, held as its IEEE 754 bit pattern.
    Float(u64),
    Text(String),
    Bool(bool),
    Null,
}

/// The mathematical value of a [`SqlParam`].
pub enum SpecSqlParam {
    Int(i64),
    Float(u64),
    Text(Seq<char>),
    Bool(bool),
    Null,
}

impl View for SqlParam {
    type V = SpecSqlParam;

    open spec fn view(&self) -> SpecSqlParam {
        match self {
            SqlParam::Int(i) => SpecSqlParam::Int(*i),
            SqlParam::Float(bits) => SpecSqlParam::Float(*bits),
            SqlParam::Text(s) => SpecSqlParam::Text(s@),
            SqlParam::Bool(b) => SpecSqlParam::Bool(*b),
            SqlParam::Null => SpecSqlParam::Null,
        }
    }
}

/// The mathematical value of a list of parameters.
pub open spec fn params_view(params: Seq<SqlParam>) -> Seq<SpecSqlParam> {
    Seq::new(params.len(), |i: int| params[i]@)
}

/// What the SQL engine is handed for a parameter: a value of one of its
/// storage classes.
#[derive(Clone, Debug, PartialEq)]
pub enum SqlValue {
    Null,
    Integer(i64),
    /// A 64-bit float, held as its IEEE 754 bit pattern.
    Real(u64),
    Text(String),
}

/// The mathematical value of a [`SqlValue`].
pub enum SpecSqlValue {
    Null,
    Integer(i64),
    Real(u64),
    Text(Seq<char>),
}

impl View for SqlValue {
    type V = SpecSqlValue;

    open spec fn view(&self) -> SpecSqlValue {
        match self {
            SqlValue::Null => SpecSqlValue::Null,
            SqlValue::Integer(i) => SpecSqlValue::Integer(*i),
            SqlValue::Real(bits) => SpecSqlValue::Real(*bits),
            SqlValue::Text(s) => SpecSqlValue::Text(s@),
        }
    }
}

/// A text between two double quote characters.
pub open spec fn in_quotes(text: Seq<char>) -> Seq<char> {
    "\""@ + text + "\""@
}

impl SpecSqlParam {
    /// The value that is bound for a parameter. A boolean is bound as the
    /// integer one or zero. A text is bound between two double quote
    /// characters, which so become part of what the table stores.
    pub open spec fn to_sql(self) -> SpecSqlValue {
        match self {
            SpecSqlParam::Int(i) => SpecSqlValue::Integer(i),
            SpecSqlParam::Float(bits) => SpecSqlValue::Real(bits),
            SpecSqlParam::Text(s) => SpecSqlValue::Text(in_quotes(s)),
            SpecSqlParam::Bool(b) => SpecSqlValue::Integer(
                if b {
                    1
                } else {
                    0
                },
            ),
            SpecSqlParam::Null => SpecSqlValue::Null,
        }
    }
}

impl SqlParam {
    /// Renders the parameter as the value to bind for it.
    pub fn to_sql(&self) -> (value: SqlValue)
        ensures
            value@ == self@.to_sql(),
    {
        match self {
            SqlParam::Int(i) => SqlValue::Integer(*i),
            SqlParam::Float(bits) => SqlValue::Real(*bits),
            SqlParam::Text(s) => {
                let mut text = String::from_str("\"");
                text.append(s.as_str());
                text.append("\"");
                assert(text@ =~= in_quotes(s@));
                SqlValue::Text(text)
            },
            SqlParam::Bool(b) => SqlValue::Integer(
                if *b {
                    1
                } else {
                    0
                },
            ),
            SqlParam::Null => SqlValue::Null,
        }
    }
}

} // verus!
