//! Optional JSON Schema gate for collection bodies and dependencies.
//!
//! Validation semantics belong to the `jsonschema` crate (draft 7) and are
//! named, not restated: `schema_compile_report` names the outcome of
//! compiling a schema text, and `schema_report` names the outcome of
//! validating data bytes against a schema text. Both are functions of
//! their text arguments alone. A `Schema` value carries the raw schema
//! text, its content hash, and whether it has been compiled since loading;
//! validating through an uncompiled schema is an error, as is configuring
//! data that the compiled schema rejects.

use vstd::prelude::*;

use crate::errors::DbError;
use jsonschema::{Draft, JSONSchema};

verus! {

/// What compiling `schema` under draft 7 reports: `None` when it compiles,
/// otherwise the diagnostic message.
pub uninterp spec fn schema_compile_report(schema: Seq<char>) -> Option<Seq<char>>;

/// Whether `schema` compiles under draft 7.
pub open spec fn schema_compiles(schema: Seq<char>) -> bool {
    schema_compile_report(schema) is None
}

/// What validating `data` against `schema` reports: `None` when the data
/// conforms, otherwise one message joining every violation.
pub uninterp spec fn schema_report(schema: Seq<char>, data: Seq<u8>) -> Option<Seq<char>>;

/// Whether `data` conforms to `schema`.
pub open spec fn schema_allows(schema: Seq<char>, data: Seq<u8>) -> bool {
    schema_report(schema, data) is None
}

/// Relies on jsonschema's draft-7 compiler (after serde_json parses the
/// text): reports nothing exactly when the schema compiles. The result
/// depends on the schema text alone.
#[verifier::external_body]
fn jsonschema_compile_check(schema: &str) -> (r: Option<String>)
    ensures
        match r {
            Some(m) => schema_compile_report(schema@) == Some(m@),
            None => schema_compile_report(schema@) is None,
        },
{
    let sv: serde_json::Value = match serde_json::from_str(schema) {
        Ok(v) => v,
        Err(e) => {
            return Some(format!("Invalid schema JSON: {}", e));
        },
    };
    match JSONSchema::options().with_draft(Draft::Draft7).compile(&sv) {
        Ok(_) => None,
        Err(e) => Some(format!("{}", e)),
    }
}

/// Relies on jsonschema's draft-7 validator (after serde_json parses both
/// texts): reports nothing exactly when the data conforms; otherwise one
/// message listing every violating path. The result depends on the two
/// texts alone.
#[verifier::external_body]
fn jsonschema_validate(schema: &str, data: &Vec<u8>) -> (r: Option<String>)
    ensures
        match r {
            Some(m) => schema_report(schema@, data@) == Some(m@),
            None => schema_report(schema@, data@) is None,
        },
{
    let sv: serde_json::Value = match serde_json::from_str(schema) { Ok(v) => v, Err(e) => return Some(format!("Invalid schema JSON: {}", e)) };
    let dv: serde_json::Value = match serde_json::from_slice(data) { Ok(v) => v, Err(e) => return Some(format!("Invalid data JSON: {}", e)) };
    let c = match JSONSchema::options().with_draft(Draft::Draft7).compile(&sv) { Ok(c) => c, Err(e) => return Some(format!("Failed to compile schema: {}", e)) };
    let out = match c.validate(&dv) {
        Ok(()) => None,
        Err(errors) => {
            let msgs: Vec<String> = errors.map(|err| format!("{} at path: {}", err, err.instance_path)).collect();
            Some(format!("Data validation failed: {}", msgs.join(", ")))
        },
    };
    out
}

/// One configured schema: its raw text, the content hash of that text, and
/// whether it has been compiled since this value was constructed or loaded.
pub struct Schema {
    pub schema_json: String,
    pub schema_hash: String,
    pub compiled: bool,
}

impl Schema {
    /// Validate `data` against this schema. Fails with `SchemaError` when
    /// the schema has not been compiled, and with `SchemaValidationError`
    /// carrying the full report when the data does not conform.
    pub fn validate_data(&self, data: &Vec<u8>) -> (r: Result<(), DbError>)
        ensures
            r is Ok <==> self.compiled && schema_allows(self.schema_json@, data@),
            !self.compiled ==> (r matches Err(e) && e is SchemaError),
            self.compiled && !schema_allows(self.schema_json@, data@) ==> (r matches Err(e) && (e
                matches DbError::SchemaValidationError(m) && Some(m@) == schema_report(
                self.schema_json@,
                data@,
            ))),
    {
        if !self.compiled {
            return Err(DbError::SchemaError("Body schema not compiled".to_owned()));
        }
        match jsonschema_validate(self.schema_json.as_str(), data) {
            None => Ok(()),
            Some(m) => Err(DbError::SchemaValidationError(m)),
        }
    }

    /// Check that this schema's text compiles, and mark it compiled.
    /// Fails with `SchemaCompilationError` carrying the compiler's report.
    pub fn compile(&mut self) -> (r: Result<(), DbError>)
        ensures
            r is Ok <==> schema_compiles(old(self).schema_json@),
            r is Ok ==> *final(self) == (Schema {
                compiled: true,
                ..*old(self)
            }),
            r is Err ==> *final(self) == *old(self),
            r matches Err(e) ==> (e matches DbError::SchemaCompilationError(m) && Some(m@)
                == schema_compile_report(old(self).schema_json@)),
    {
        match jsonschema_compile_check(self.schema_json.as_str()) {
            None => {
                self.compiled = true;
                Ok(())
            },
            Some(m) => Err(DbError::SchemaCompilationError(m)),
        }
    }
}

} // verus!
