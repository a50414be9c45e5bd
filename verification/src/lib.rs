//! Relational table schemas for batches of semi-structured documents.
//!
//! A [`TableSchema`] is inferred from a batch of [`Document`]s, and then
//! yields the `CREATE TABLE` statement for the table, the `INSERT` statement
//! template, and the positional parameters of each document.

pub mod bind;
pub mod document;
pub mod entries;
pub mod field_type;
pub mod infer;
pub mod json;
pub mod laws;
pub mod number;
pub mod schema;
pub mod sql_param;
pub mod text;

pub use bind::BindError;
pub use document::{Document, FieldValue};
pub use field_type::TableSchemaFieldType;
pub use infer::InferError;
pub use schema::TableSchema;
pub use sql_param::{SqlParam, SqlValue};
