//! The error type shared by every fallible operation of the store.

use vstd::prelude::*;

verus! {

/// Typed errors returned by the store. Every error carries the diagnostic
/// message shown to callers, except `NotFound`, which is a bare marker.
#[derive(Debug)]
pub enum DbError {
    SerializationError(String),
    DeserializationError(String),
    NotFound,
    DatabaseError(String),
    AlreadyExists(String),
    SchemaError(String),
    SchemaValidationError(String),
    SchemaCompilationError(String),
}

impl DbError {
    /// The user-visible rendering of the error, one line per kind.
    pub fn message(&self) -> (r: String)
        ensures
            r@ == self.spec_message(),
    {
        let m: &str = match self {
            DbError::SerializationError(_) => "Serialization error: ",
            DbError::DeserializationError(_) => "Deserialization error: ",
            DbError::NotFound => "Item not found",
            DbError::DatabaseError(_) => "Database error: ",
            DbError::AlreadyExists(_) => "Item already exists: ",
            DbError::SchemaError(_) => "Schema error: ",
            DbError::SchemaValidationError(_) => "Schema validation error: ",
            DbError::SchemaCompilationError(_) => "Schema compilation error: ",
        };
        let mut out = m.to_owned();
        match self {
            DbError::SerializationError(s) => out.append(s.as_str()),
            DbError::DeserializationError(s) => out.append(s.as_str()),
            DbError::NotFound => (),
            DbError::DatabaseError(s) => out.append(s.as_str()),
            DbError::AlreadyExists(s) => out.append(s.as_str()),
            DbError::SchemaError(s) => out.append(s.as_str()),
            DbError::SchemaValidationError(s) => out.append(s.as_str()),
            DbError::SchemaCompilationError(s) => out.append(s.as_str()),
        }
        out
    }

    /// What `message` returns, as a function of the error value.
    pub open spec fn spec_message(&self) -> Seq<char> {
        match self {
            DbError::SerializationError(s) => "Serialization error: "@ + s@,
            DbError::DeserializationError(s) => "Deserialization error: "@ + s@,
            DbError::NotFound => "Item not found"@,
            DbError::DatabaseError(s) => "Database error: "@ + s@,
            DbError::AlreadyExists(s) => "Item already exists: "@ + s@,
            DbError::SchemaError(s) => "Schema error: "@ + s@,
            DbError::SchemaValidationError(s) => "Schema validation error: "@ + s@,
            DbError::SchemaCompilationError(s) => "Schema compilation error: "@ + s@,
        }
    }
}

} // verus!
