//! One collection: a namespace of documents with dependency deduplication.
//!
//! A document arrives as JSON text with exactly the two top-level keys
//! `body` and `dependencies`. The dependency value is serialized
//! canonically and content-addressed: its digest keys a shared blob, a
//! marker key records membership, and the document record points at the
//! blob. All multi-key mutations go through one atomic write batch, and
//! every mutating call ends with a durability flush.

use vstd::prelude::*;

use crate::errors::DbError;
use crate::hash::{digest, digest32};
use crate::json::{jview, obj_get, ser, Json, JsonM};
use crate::keys::{is_doc_key, is_rec, marker_hash, marker_id, rec_body, rec_hash};
use crate::parse::parse_json;
use crate::schema::{schema_allows, Schema};
use crate::state::{
    delete_effect, insert_effect, lemma_delete_wf, lemma_insert_wf, lemma_update_wf, update_effect,
    wf, Entries,
};
use crate::store::{tree_entries, Tree, WriteBatch};
use vstd::string::{StrSliceExecFns, StringExecFns};

verus! {

broadcast use vstd::std_specs::vec::group_vec_axioms;

/// Per-collection configuration, stored once under the reserved key.
pub struct CollectionMetadata {
    pub name: String,
    pub body_schema: Option<Schema>,
    pub dependencies_schema: Option<Schema>,
    pub created_at: u64,
}

/// A handle on one collection's keyspace and its configuration. The
/// fields are exposed for specification; callers go through the methods.
pub struct Collection {
    pub tree: Tree,
    pub metadata: CollectionMetadata,
}

/// The two required top-level keys of a document.
pub open spec fn body_key() -> Seq<u8> {
    seq![98u8, 111u8, 100u8, 121u8]
}

pub open spec fn deps_key() -> Seq<u8> {
    seq![
        100u8,
        101u8,
        112u8,
        101u8,
        110u8,
        100u8,
        101u8,
        110u8,
        99u8,
        105u8,
        101u8,
        115u8,
    ]
}

/// The body and dependencies of a well-shaped document value: an object
/// with exactly those two members.
pub open spec fn doc_fields(v: JsonM) -> Option<(JsonM, JsonM)> {
    match v {
        JsonM::Obj(ms) => if ms.len() == 2 && obj_get(ms, body_key()) is Some && obj_get(
            ms,
            deps_key(),
        ) is Some {
            Some((obj_get(ms, body_key())->0, obj_get(ms, deps_key())->0))
        } else {
            None
        },
        _ => None,
    }
}

/// What a document request text denotes, if anything: parse, then require
/// the two-key shape.
pub open spec fn parsed_doc(text: Seq<u8>) -> Option<(JsonM, JsonM)> {
    match parse_json(text) {
        None => None,
        Some(v) => doc_fields(v),
    }
}

/// Whether `data` passes an optional schema gate.
pub open spec fn gate_ok(sch: Option<Schema>, data: Seq<u8>) -> bool {
    match sch {
        None => true,
        Some(s) => s.compiled && schema_allows(s.schema_json@, data),
    }
}

/// A configured schema that has not been compiled: validating through it
/// is a `SchemaError`.
pub open spec fn uncompiled(sch: Option<Schema>) -> bool {
    sch matches Some(s) && !s.compiled
}

/// A compiled schema that rejects `data`: a `SchemaValidationError`.
pub open spec fn rejected(sch: Option<Schema>, data: Seq<u8>) -> bool {
    sch matches Some(s) && s.compiled && !schema_allows(s.schema_json@, data)
}

/// `,"dependencies":` — between the two parts of a reconstructed document.
pub open spec fn deps_label() -> Seq<u8> {
    seq![
        44u8,
        34u8,
        100u8,
        101u8,
        112u8,
        101u8,
        110u8,
        100u8,
        101u8,
        110u8,
        99u8,
        105u8,
        101u8,
        115u8,
        34u8,
        58u8,
    ]
}

/// The text `get_json` reconstructs from stored body bytes and the stored
/// dependency blob: `{"body":<body>,"dependencies":<deps>}`.
pub open spec fn doc_text(body: Seq<u8>, deps: Seq<u8>) -> Seq<u8> {
    crate::keys::rec_prefix() + body + deps_label() + deps + seq![125u8]
}

/// Turn ASCII bytes into the string with exactly those character codes.
pub(crate) fn ascii_string(v: Vec<u8>) -> (r: String)
    requires
        forall|i: int| 0 <= i < v@.len() ==> (#[trigger] v@[i]) < 128,
    ensures
        vstd::utf8::encode_utf8(r@) == v@,
{
    let ghost t: Seq<char> = v@.map_values(|b: u8| b as char);
    proof {
        assert(vstd::utf8::is_ascii_chars(t)) by {
            assert forall|i: int| 0 <= i < t.len() implies ((#[trigger] t[i]) as nat) < 128 by {
                assert(t[i] == v@[i] as char);
            }
        }
        vstd::utf8::is_ascii_chars_encode_utf8(t);
        assert(vstd::utf8::encode_utf8(t) =~= v@) by {
            assert(vstd::utf8::encode_utf8(t) =~= Seq::new(t.len(), |i: int| t[i] as u8));
            assert forall|i: int| 0 <= i < t.len() implies t[i] as u8 == v@[i] by {
                assert(t[i] == v@[i] as char);
            }
        }
    }
    match crate::store::bytes_to_string(v) {
        Ok(s) => s,
        Err(_) => {
            proof {
                assert(false);
            }
            String::new()
        },
    }
}

impl Collection {
    /// The contents of this collection's keyspace.
    pub open spec fn entries(self) -> Entries {
        tree_entries(self.tree)
    }

    /// This collection's configuration.
    pub open spec fn meta(self) -> CollectionMetadata {
        self.metadata
    }

    /// Draw random 16-byte alphanumeric tokens until one names no existing
    /// key, giving up after ten attempts.
    fn generate_unique_id(&self) -> (r: Result<Vec<u8>, DbError>)
        ensures
            r matches Ok(id) ==> is_doc_key(id@) && !self.entries().dom().contains(id@) && forall|
                i: int,
            | 0 <= i < id@.len() ==> (#[trigger] id@[i]) < 128,
            r matches Err(e) ==> e is DatabaseError,
    {
        let mut attempt: usize = 0;
        while attempt < 10
            invariant
                attempt <= 10,
            decreases 10 - attempt,
        {
            let tok = crate::store::random_token();
            match self.tree.get(&tok) {
                Ok(None) => {
                    proof {
                        assert(is_doc_key(tok@));
                        assert forall|i: int| 0 <= i < tok@.len() implies (#[trigger] tok@[i])
                            < 128 by {
                            assert(crate::keys::is_alnum(tok@[i]));
                        }
                    }
                    return Ok(tok);
                },
                Ok(Some(_)) => {
                },
                Err(e) => {
                    return Err(DbError::DatabaseError(e));
                },
            }
            attempt = attempt + 1;
        }
        Err(DbError::DatabaseError("Failed to generate unique ID after 10 attempts".to_owned()))
    }

    /// Validate `data` against the optional body schema, as `insert` and
    /// `update` do.
    fn validate_body(&self, data: &Vec<u8>) -> (r: Result<(), DbError>)
        ensures
            r is Ok <==> gate_ok(self.meta().body_schema, data@),
            r matches Err(e) ==> match e {
                DbError::SchemaError(_) => uncompiled(self.meta().body_schema),
                DbError::SchemaValidationError(_) => rejected(self.meta().body_schema, data@),
                _ => false,
            },
    {
        match &self.metadata.body_schema {
            Some(s) => s.validate_data(data),
            None => Ok(()),
        }
    }

    /// Validate `data` against the optional dependencies schema.
    fn validate_dependencies(&self, data: &Vec<u8>) -> (r: Result<(), DbError>)
        ensures
            r is Ok <==> gate_ok(self.meta().dependencies_schema, data@),
            r matches Err(e) ==> match e {
                DbError::SchemaError(_) => uncompiled(self.meta().dependencies_schema),
                DbError::SchemaValidationError(_) => rejected(
                    self.meta().dependencies_schema,
                    data@,
                ),
                _ => false,
            },
    {
        match &self.metadata.dependencies_schema {
            Some(s) => s.validate_data(data),
            None => Ok(()),
        }
    }

    /// Store the document `(body, dependencies)`: write its record, its
    /// membership marker, and — only if absent — the shared dependency
    /// blob, all in one atomic batch, then flush. Returns the fresh id.
    pub fn insert_doc(&mut self, body: &Json, deps: &Json) -> (r: Result<String, DbError>)
        ensures
            final(self).meta() == old(self).meta(),
            r matches Ok(id) ==> {
                &&& gate_ok(old(self).meta().body_schema, ser(body@))
                &&& gate_ok(old(self).meta().dependencies_schema, ser(deps@))
                &&& is_doc_key(vstd::utf8::encode_utf8(id@))
                &&& !old(self).entries().dom().contains(vstd::utf8::encode_utf8(id@))
                &&& final(self).entries() == insert_effect(
                    old(self).entries(),
                    vstd::utf8::encode_utf8(id@),
                    ser(body@),
                    ser(deps@),
                )
                &&& parse_json(ser(deps@)) is Some
                &&& wf(old(self).entries()) ==> wf(final(self).entries())
            },
            r matches Err(e) ==> match e {
                DbError::SchemaError(_) => final(self).entries() == old(self).entries() && (
                uncompiled(old(self).meta().body_schema) || (gate_ok(
                    old(self).meta().body_schema,
                    ser(body@),
                ) && uncompiled(old(self).meta().dependencies_schema))),
                DbError::SchemaValidationError(_) => final(self).entries() == old(self).entries()
                    && (rejected(old(self).meta().body_schema, ser(body@)) || (gate_ok(
                    old(self).meta().body_schema,
                    ser(body@),
                ) && rejected(old(self).meta().dependencies_schema, ser(deps@)))),
                DbError::SerializationError(_) => final(self).entries() == old(self).entries()
                    && parse_json(ser(deps@)) is None,
                DbError::DatabaseError(_) => true,
                _ => false,
            },
            uncompiled(old(self).meta().body_schema) || (gate_ok(
                old(self).meta().body_schema,
                ser(body@),
            ) && uncompiled(old(self).meta().dependencies_schema)) ==> (r matches Err(e) && e
                is SchemaError),
            rejected(old(self).meta().body_schema, ser(body@)) || (gate_ok(
                old(self).meta().body_schema,
                ser(body@),
            ) && rejected(old(self).meta().dependencies_schema, ser(deps@))) ==> (r matches Err(e)
                && e is SchemaValidationError),
    {
        let body_bytes = crate::json::to_bytes(body);
        let deps_bytes = crate::json::to_bytes(deps);
        match self.validate_body(&body_bytes) {
            Ok(()) => (),
            Err(e) => {
                return Err(e);
            },
        }
        match self.validate_dependencies(&deps_bytes) {
            Ok(()) => (),
            Err(e) => {
                return Err(e);
            },
        }
        if crate::parse::parse_json_exec(&deps_bytes).is_none() {
            return Err(
                DbError::SerializationError("Failed to serialize dependencies".to_owned()),
            );
        }
        let h = digest(&deps_bytes);
        let id = match self.generate_unique_id() {
            Ok(id) => id,
            Err(e) => {
                return Err(e);
            },
        };
        let blob_present = match self.tree.get(&h) {
            Ok(o) => o.is_some(),
            Err(e) => {
                return Err(DbError::DatabaseError(e));
            },
        };
        let rec = crate::keys::rec_build(&h, &body_bytes);
        let mk = crate::keys::marker_key_exec(&h, &id);
        let empty: Vec<u8> = Vec::new();
        let mut batch = WriteBatch::new();
        batch.set(&id, &rec);
        if !blob_present {
            batch.set(&h, &deps_bytes);
        }
        batch.set(&mk, &empty);
        let ghost m0 = self.entries();
        match self.tree.apply(batch) {
            Ok(()) => (),
            Err(e) => {
                return Err(DbError::DatabaseError(e));
            },
        }
        proof {
            crate::hash::lemma_digest32_shape(deps_bytes@);
            assert(self.entries() =~= insert_effect(m0, id@, ser(jview(*body)), ser(
                jview(*deps),
            )));
            if wf(m0) {
                lemma_insert_wf(m0, id@, ser(jview(*body)), ser(jview(*deps)));
            }
        }
        match self.tree.flush() {
            Ok(()) => (),
            Err(e) => {
                return Err(DbError::DatabaseError(e));
            },
        }
        let s = ascii_string(id);
        Ok(s)
    }

    /// Parse a document request and store it. The text must be a JSON
    /// object with exactly the keys `body` and `dependencies`.
    pub fn insert_json(&mut self, json: String) -> (r: Result<String, DbError>)
        ensures
            final(self).meta() == old(self).meta(),
            match parsed_doc(vstd::utf8::encode_utf8(json@)) {
                None => r matches Err(e) && e is DeserializationError && final(self).entries()
                    == old(self).entries(),
                Some(bd) => {
                    &&& r matches Ok(id) ==> {
                        &&& gate_ok(old(self).meta().body_schema, ser(bd.0))
                        &&& gate_ok(old(self).meta().dependencies_schema, ser(bd.1))
                        &&& is_doc_key(vstd::utf8::encode_utf8(id@))
                        &&& !old(self).entries().dom().contains(vstd::utf8::encode_utf8(id@))
                        &&& final(self).entries() == insert_effect(
                            old(self).entries(),
                            vstd::utf8::encode_utf8(id@),
                            ser(bd.0),
                            ser(bd.1),
                        )
                        &&& parse_json(ser(bd.1)) is Some
                        &&& wf(old(self).entries()) ==> wf(final(self).entries())
                    }
                    &&& r matches Err(e) ==> match e {
                        DbError::SchemaError(_) => final(self).entries() == old(self).entries()
                            && (uncompiled(old(self).meta().body_schema) || (gate_ok(
                            old(self).meta().body_schema,
                            ser(bd.0),
                        ) && uncompiled(old(self).meta().dependencies_schema))),
                        DbError::SchemaValidationError(_) => final(self).entries() == old(
                            self,
                        ).entries() && (rejected(old(self).meta().body_schema, ser(bd.0)) || (
                        gate_ok(old(self).meta().body_schema, ser(bd.0)) && rejected(
                            old(self).meta().dependencies_schema,
                            ser(bd.1),
                        ))),
                        DbError::SerializationError(_) => final(self).entries() == old(
                            self,
                        ).entries() && parse_json(ser(bd.1)) is None,
                        DbError::DatabaseError(_) => true,
                        _ => false,
                    }
                    &&& uncompiled(old(self).meta().body_schema) || (gate_ok(
                        old(self).meta().body_schema,
                        ser(bd.0),
                    ) && uncompiled(old(self).meta().dependencies_schema)) ==> (r matches Err(e)
                        && e is SchemaError)
                    &&& rejected(old(self).meta().body_schema, ser(bd.0)) || (gate_ok(
                        old(self).meta().body_schema,
                        ser(bd.0),
                    ) && rejected(old(self).meta().dependencies_schema, ser(bd.1))) ==> (r matches
                        Err(e) && e is SchemaValidationError)
                },
            },
    {
        let bytes = json.as_str().as_bytes_vec();
        let (b, d) = match parse_doc(&bytes) {
            Ok(p) => p,
            Err(e) => {
                return Err(e);
            },
        };
        self.insert_doc(&b, &d)
    }

    /// Reconstruct `{"body":…,"dependencies":…}` for the stored document.
    /// A missing or malformed record, a missing dependency blob, or a blob
    /// that is not valid JSON (a broken invariant) is a deserialization
    /// error.
    #[verifier::rlimit(100)]
    #[verifier::spinoff_prover]
    pub fn get_json(&self, id: &str) -> (r: Result<String, DbError>)
        ensures
            !self.entries().dom().contains(vstd::utf8::encode_utf8(id@)) ==> (r matches Err(e) && (
            e is NotFound || e is DatabaseError)),
            ({
                let m = self.entries();
                let kb = vstd::utf8::encode_utf8(id@);
                match r {
                    Ok(text) => m.dom().contains(kb) && is_rec(m[kb]) && m.dom().contains(
                        rec_hash(m[kb]),
                    ) && parse_json(m[rec_hash(m[kb])]) is Some && vstd::utf8::encode_utf8(text@)
                        == doc_text(rec_body(m[kb]), m[rec_hash(m[kb])]),
                    Err(e) => match e {
                        DbError::NotFound => !m.dom().contains(kb),
                        DbError::DeserializationError(_) => m.dom().contains(kb) && (!is_rec(m[kb])
                            || !m.dom().contains(rec_hash(m[kb])) || parse_json(
                            m[rec_hash(m[kb])],
                        ) is None),
                        DbError::SerializationError(_) => m.dom().contains(kb) && is_rec(m[kb])
                            && m.dom().contains(rec_hash(m[kb])) && parse_json(
                            m[rec_hash(m[kb])],
                        ) is Some && !(exists|t: Seq<char>|
                            vstd::utf8::encode_utf8(t) == doc_text(
                                rec_body(m[kb]),
                                m[rec_hash(m[kb])],
                            )),
                        DbError::DatabaseError(_) => true,
                        _ => false,
                    },
                }
            }),
    {
        let kb = id.as_bytes_vec();
        let rec = match self.tree.get(&kb) {
            Ok(Some(v)) => v,
            Ok(None) => {
                return Err(DbError::NotFound);
            },
            Err(e) => {
                return Err(DbError::DatabaseError(e));
            },
        };
        let (h, body_bytes) = match crate::keys::rec_split(&rec) {
            Some(p) => p,
            None => {
                return Err(
                    DbError::DeserializationError(
                        "Invalid storage structure: missing 'deps' or 'body'".to_owned(),
                    ),
                );
            },
        };
        let deps_bytes = match self.tree.get(&h) {
            Ok(Some(v)) => v,
            Ok(None) => {
                let mut msg = String::from_str("Dependencies with hash ");
                msg.append(ascii_string_hash(&h).as_str());
                msg.append(" not found");
                return Err(DbError::DeserializationError(msg));
            },
            Err(e) => {
                return Err(DbError::DatabaseError(e));
            },
        };
        if crate::parse::parse_json_exec(&deps_bytes).is_none() {
            return Err(
                DbError::DeserializationError("Failed to deserialize dependencies".to_owned()),
            );
        }
        let mut out: Vec<u8> = Vec::new();
        out.push(123);
        out.push(34);
        out.push(98);
        out.push(111);
        out.push(100);
        out.push(121);
        out.push(34);
        out.push(58);
        out.extend_from_slice(body_bytes.as_slice());
        out.push(44);
        out.push(34);
        out.push(100);
        out.push(101);
        out.push(112);
        out.push(101);
        out.push(110);
        out.push(100);
        out.push(101);
        out.push(110);
        out.push(99);
        out.push(105);
        out.push(101);
        out.push(115);
        out.push(34);
        out.push(58);
        out.extend_from_slice(deps_bytes.as_slice());
        out.push(125);
        proof {
            assert(out@ =~= doc_text(rec_body(self.entries()[kb@]), self.entries()[rec_hash(
                self.entries()[kb@],
            )]));
        }
        match crate::store::bytes_to_string(out) {
            Ok(s) => Ok(s),
            Err(_) => Err(
                DbError::SerializationError("Failed to serialize result".to_owned()),
            ),
        }
    }

    /// Whether no document other than `id` holds a marker in `id`'s
    /// dependency group: the condition under which deletion collects the
    /// group's blob.
    pub open spec fn last_member(m: Entries, id: Seq<u8>) -> bool {
        forall|mk: Seq<u8>|
            #[trigger] m.dom().contains(mk) && crate::keys::is_marker_key(mk) && marker_hash(mk)
                == rec_hash(m[id]) ==> marker_id(mk) == id
    }

    /// Update a document in place, at the value level. An unchanged body
    /// and unchanged dependency digest make the call a no-op that writes
    /// nothing; a changed digest atomically moves the marker and writes the
    /// new blob if absent, leaving the old blob in place (only deletion
    /// collects garbage).
    #[verifier::rlimit(100)]
    pub fn update_doc(&mut self, id: &str, b: &Json, d: &Json) -> (r: Result<(), DbError>)
        ensures
            final(self).meta() == old(self).meta(),
            !old(self).entries().dom().contains(vstd::utf8::encode_utf8(id@)) ==> (r matches Err(e)
                && (e is NotFound || e is DatabaseError)),
            ({
                let m = old(self).entries();
                let kb = vstd::utf8::encode_utf8(id@);
                match r {
                    Ok(()) => m.dom().contains(kb) && is_rec(m[kb]) && {
                        &&& gate_ok(old(self).meta().body_schema, ser(b@))
                        &&& gate_ok(old(self).meta().dependencies_schema, ser(d@))
                        &&& if ser(b@) == rec_body(m[kb]) && digest32(ser(d@)) == rec_hash(m[kb]) {
                            final(self).entries() == m
                        } else {
                            final(self).entries() == update_effect(m, kb, ser(b@), ser(d@)) && ((
                            wf(m) && is_doc_key(kb)) ==> wf(final(self).entries()))
                        }
                    },
                    Err(e) => match e {
                        DbError::NotFound => !m.dom().contains(kb) && final(self).entries() == m,
                        DbError::DeserializationError(_) => final(self).entries() == m
                            && m.dom().contains(kb) && !is_rec(m[kb]),
                        DbError::SchemaError(_) => final(self).entries() == m
                            && m.dom().contains(kb) && is_rec(m[kb]) && (uncompiled(
                            old(self).meta().body_schema,
                        ) || (gate_ok(old(self).meta().body_schema, ser(b@)) && uncompiled(
                            old(self).meta().dependencies_schema,
                        ))),
                        DbError::SchemaValidationError(_) => final(self).entries() == m
                            && m.dom().contains(kb) && is_rec(m[kb]) && (rejected(
                            old(self).meta().body_schema,
                            ser(b@),
                        ) || (gate_ok(old(self).meta().body_schema, ser(b@)) && rejected(
                            old(self).meta().dependencies_schema,
                            ser(d@),
                        ))),
                        DbError::SerializationError(_) => final(self).entries() == m
                            && parse_json(ser(d@)) is None,
                        DbError::DatabaseError(_) => true,
                        _ => false,
                    },
                }
            }),
            ({
                let m = old(self).entries();
                let kb = vstd::utf8::encode_utf8(id@);
                m.dom().contains(kb) && is_rec(m[kb]) && (rejected(
                    old(self).meta().body_schema,
                    ser(b@),
                ) || (gate_ok(old(self).meta().body_schema, ser(b@)) && rejected(
                    old(self).meta().dependencies_schema,
                    ser(d@),
                ))) ==> (r matches Err(e) && (e is SchemaValidationError || e is DatabaseError))
            }),
    {
        let kb = id.as_bytes_vec();
        let rec = match self.tree.get(&kb) {
            Ok(Some(v)) => v,
            Ok(None) => {
                return Err(DbError::NotFound);
            },
            Err(e) => {
                return Err(DbError::DatabaseError(e));
            },
        };
        let (h0, old_body) = match crate::keys::rec_split(&rec) {
            Some(p) => p,
            None => {
                return Err(
                    DbError::DeserializationError(
                        "Invalid storage structure: missing 'deps' or 'body'".to_owned(),
                    ),
                );
            },
        };
        let body_bytes = crate::json::to_bytes(b);
        let deps_bytes = crate::json::to_bytes(d);
        match self.validate_body(&body_bytes) {
            Ok(()) => (),
            Err(e) => {
                return Err(e);
            },
        }
        match self.validate_dependencies(&deps_bytes) {
            Ok(()) => (),
            Err(e) => {
                return Err(e);
            },
        }
        if crate::parse::parse_json_exec(&deps_bytes).is_none() {
            return Err(
                DbError::SerializationError("Failed to serialize dependencies".to_owned()),
            );
        }
        let h = digest(&deps_bytes);
        let body_changed = !(body_bytes == old_body);
        let deps_changed = !(h == h0);
        proof {
            if !(body_bytes@ =~= old_body@) {
                assert(body_bytes@ != old_body@);
            }
            if !(h@ =~= h0@) {
                assert(h@ != h0@);
            }
        }
        if !body_changed && !deps_changed {
            return Ok(());
        }
        match self.write_update(&kb, &h0, &h, &body_bytes, &deps_bytes, deps_changed) {
            Ok(()) => (),
            Err(e) => {
                return Err(DbError::DatabaseError(e));
            },
        }
        Ok(())
    }

    /// Parse a document request and update the document `id` with it.
    #[verifier::rlimit(100)]
    pub fn update_json(&mut self, id: &str, json: String) -> (r: Result<(), DbError>)
        ensures
            final(self).meta() == old(self).meta(),
            !old(self).entries().dom().contains(vstd::utf8::encode_utf8(id@)) ==> (r matches Err(e)
                && (e is NotFound || e is DatabaseError)),
            ({
                let m = old(self).entries();
                let kb = vstd::utf8::encode_utf8(id@);
                let req = parsed_doc(vstd::utf8::encode_utf8(json@));
                match r {
                    Ok(()) => m.dom().contains(kb) && is_rec(m[kb]) && req is Some && {
                        let bd = req->0;
                        &&& gate_ok(old(self).meta().body_schema, ser(bd.0))
                        &&& gate_ok(old(self).meta().dependencies_schema, ser(bd.1))
                        &&& if ser(bd.0) == rec_body(m[kb]) && digest32(ser(bd.1)) == rec_hash(
                            m[kb],
                        ) {
                            final(self).entries() == m
                        } else {
                            final(self).entries() == update_effect(m, kb, ser(bd.0), ser(bd.1))
                                && ((wf(m) && is_doc_key(kb)) ==> wf(final(self).entries()))
                        }
                    },
                    Err(e) => match e {
                        DbError::NotFound => !m.dom().contains(kb) && final(self).entries() == m,
                        DbError::DeserializationError(_) => final(self).entries() == m
                            && m.dom().contains(kb) && (req is None || !is_rec(m[kb])),
                        DbError::SchemaError(_) => final(self).entries() == m && req is Some && (
                        uncompiled(old(self).meta().body_schema) || (gate_ok(
                            old(self).meta().body_schema,
                            ser((req->0).0),
                        ) && uncompiled(old(self).meta().dependencies_schema))),
                        DbError::SchemaValidationError(_) => final(self).entries() == m
                            && req is Some && (rejected(
                            old(self).meta().body_schema,
                            ser((req->0).0),
                        ) || (gate_ok(old(self).meta().body_schema, ser((req->0).0)) && rejected(
                            old(self).meta().dependencies_schema,
                            ser((req->0).1),
                        ))),
                        DbError::SerializationError(_) => final(self).entries() == m
                            && req is Some && parse_json(ser((req->0).1)) is None,
                        DbError::DatabaseError(_) => true,
                        _ => false,
                    },
                }
            }),
            ({
                let m = old(self).entries();
                let kb = vstd::utf8::encode_utf8(id@);
                let req = parsed_doc(vstd::utf8::encode_utf8(json@));
                m.dom().contains(kb) && is_rec(m[kb]) && req is Some && (rejected(
                    old(self).meta().body_schema,
                    ser((req->0).0),
                ) || (gate_ok(old(self).meta().body_schema, ser((req->0).0)) && rejected(
                    old(self).meta().dependencies_schema,
                    ser((req->0).1),
                ))) ==> (r matches Err(e) && (e is SchemaValidationError || e is DatabaseError))
            }),
    {
        let kb = id.as_bytes_vec();
        match self.tree.get(&kb) {
            Ok(Some(_)) => (),
            Ok(None) => {
                return Err(DbError::NotFound);
            },
            Err(e) => {
                return Err(DbError::DatabaseError(e));
            },
        }
        let bytes = json.as_str().as_bytes_vec();
        let (b, d) = match parse_doc(&bytes) {
            Ok(p) => p,
            Err(e) => {
                return Err(e);
            },
        };
        self.update_doc(id, &b, &d)
    }

    /// The write phase of an update: one atomic batch, then a flush.
    fn write_update(
        &mut self,
        kb: &Vec<u8>,
        h0: &Vec<u8>,
        h: &Vec<u8>,
        body_bytes: &Vec<u8>,
        deps_bytes: &Vec<u8>,
        deps_changed: bool,
    ) -> (r: Result<(), String>)
        requires
            old(self).entries().dom().contains(kb@),
            is_rec(old(self).entries()[kb@]),
            h0@ == rec_hash(old(self).entries()[kb@]),
            h@ == digest32(deps_bytes@),
            deps_changed == (h@ != h0@),
        ensures
            final(self).meta() == old(self).meta(),
            r is Ok ==> final(self).entries() == update_effect(
                old(self).entries(),
                kb@,
                body_bytes@,
                deps_bytes@,
            ) && ((wf(old(self).entries()) && is_doc_key(kb@)) ==> wf(final(self).entries())),
    {
        let ghost m0 = self.entries();
        let mut batch = WriteBatch::new();
        if deps_changed {
            let old_mk = crate::keys::marker_key_exec(h0, kb);
            batch.del(&old_mk);
            let blob_present = match self.tree.get(h) {
                Ok(o) => o.is_some(),
                Err(e) => {
                    return Err(e);
                },
            };
            if !blob_present {
                batch.set(h, deps_bytes);
            }
            let new_mk = crate::keys::marker_key_exec(h, kb);
            let empty: Vec<u8> = Vec::new();
            batch.set(&new_mk, &empty);
        }
        let new_rec = crate::keys::rec_build(h, body_bytes);
        batch.set(kb, &new_rec);
        match self.tree.apply(batch) {
            Ok(()) => (),
            Err(e) => {
                return Err(e);
            },
        }
        proof {
            crate::hash::lemma_digest32_shape(deps_bytes@);
            if deps_changed {
                assert(h@ != rec_hash(m0[kb@]));
                assert(crate::keys::marker_key(h@, kb@) != crate::keys::marker_key(h0@, kb@)) by {
                    assert((h@ + seq![95u8] + kb@).subrange(0, 32) =~= h@);
                    assert((h0@ + seq![95u8] + kb@).subrange(0, 32) =~= h0@);
                }
                assert(self.entries() =~~= update_effect(m0, kb@, body_bytes@, deps_bytes@));
            } else {
                assert(h@ == rec_hash(m0[kb@]));
                assert(self.entries() =~~= update_effect(m0, kb@, body_bytes@, deps_bytes@));
            }
            if wf(m0) && is_doc_key(kb@) {
                lemma_update_wf(m0, kb@, body_bytes@, deps_bytes@);
            }
        }
        match self.tree.flush() {
            Ok(()) => (),
            Err(e) => {
                return Err(e);
            },
        }
        Ok(())
    }

    /// Delete a document: its record and marker always go, and the shared
    /// dependency blob goes too exactly when no other document references
    /// it.
    #[verifier::rlimit(100)]
    pub fn delete_json(&mut self, id: &str) -> (r: Result<(), DbError>)
        ensures
            final(self).meta() == old(self).meta(),
            !old(self).entries().dom().contains(vstd::utf8::encode_utf8(id@)) ==> (r matches Err(e)
                && (e is NotFound || e is DatabaseError)),
            ({
                let m = old(self).entries();
                let kb = vstd::utf8::encode_utf8(id@);
                match r {
                    Ok(()) => m.dom().contains(kb) && is_rec(m[kb]) && ((wf(m) && is_doc_key(kb))
                        ==> final(self).entries() == delete_effect(
                        m,
                        kb,
                        Collection::last_member(m, kb),
                    ) && wf(final(self).entries())),
                    Err(e) => match e {
                        DbError::NotFound => !m.dom().contains(kb) && final(self).entries() == m,
                        DbError::DeserializationError(_) => final(self).entries() == m
                            && m.dom().contains(kb) && !is_rec(m[kb]),
                        DbError::DatabaseError(_) => true,
                        _ => false,
                    },
                }
            }),
    {
        let kb = id.as_bytes_vec();
        let rec = match self.tree.get(&kb) {
            Ok(Some(v)) => v,
            Ok(None) => {
                return Err(DbError::NotFound);
            },
            Err(e) => {
                return Err(DbError::DatabaseError(e));
            },
        };
        let (h, _old_body) = match crate::keys::rec_split(&rec) {
            Some(p) => p,
            None => {
                return Err(
                    DbError::DeserializationError(
                        "Invalid storage structure: missing 'deps'".to_owned(),
                    ),
                );
            },
        };
        let prefix = crate::keys::marker_prefix_exec(&h);
        let keys = match self.tree.scan_keys(&prefix) {
            Ok(ks) => ks,
            Err(e) => {
                return Err(DbError::DatabaseError(e));
            },
        };
        let own = crate::keys::marker_key_exec(&h, &kb);
        let mut other = false;
        let mut i: usize = 0;
        while i < keys.len()
            invariant
                i <= keys@.len(),
                other == exists|j: int| 0 <= j < i && (#[trigger] keys@[j])@ != own@,
            decreases keys@.len() - i,
        {
            let same = keys[i] == own;
            if !same {
                proof {
                    assert(!(keys@[i as int]@ =~= own@)) by {
                        if keys@[i as int]@ =~= own@ {
                            assert(keys@[i as int]@ == own@);
                        }
                    }
                    assert(keys@[i as int]@ != own@);
                }
                other = true;
            }
            proof {
                if same {
                    assert(keys@[i as int]@ =~= own@);
                }
            }
            i = i + 1;
        }
        let gc = !other;
        let ghost m0 = self.entries();
        proof {
            if wf(m0) && is_doc_key(kb@) {
                assert(crate::keys::is_blob_key(h@));
                if gc {
                    assert forall|mk: Seq<u8>|
                        #[trigger] m0.dom().contains(mk) && crate::keys::is_marker_key(mk)
                            && marker_hash(mk) == rec_hash(m0[kb@]) implies marker_id(mk)
                        == kb@ by {
                        crate::keys::lemma_marker_prefix_iff(h@, mk);
                        assert(crate::store::has_prefix(mk, crate::keys::marker_prefix(h@)));
                        let j = choose|j: int|
                            0 <= j < keys@.len() && (#[trigger] keys@[j])@ == mk;
                        assert(keys@[j]@ == own@);
                        crate::keys::lemma_marker_key_parts(h@, kb@);
                    }
                } else {
                    let j = choose|j: int| 0 <= j < keys@.len() && (#[trigger] keys@[j])@ != own@;
                    let k = keys@[j]@;
                    assert(m0.dom().contains(k));
                    assert(crate::keys::is_marker_key(k)) by {
                        assert(crate::state::key_shape_ok(k));
                        assert(k.len() >= crate::keys::marker_prefix(h@).len());
                    }
                    crate::keys::lemma_marker_prefix_iff(h@, k);
                    assert(marker_hash(k) == h@);
                    assert(!Collection::last_member(m0, kb@)) by {
                        if Collection::last_member(m0, kb@) {
                            assert(marker_id(k) == kb@);
                            crate::keys::lemma_marker_reconstruct(k);
                            assert(k == own@);
                        }
                    }
                }
            }
        }
        let mut batch = WriteBatch::new();
        batch.del(&kb);
        batch.del(&own);
        if gc {
            batch.del(&h);
        }
        match self.tree.apply(batch) {
            Ok(()) => (),
            Err(e) => {
                return Err(DbError::DatabaseError(e));
            },
        }
        proof {
            if wf(m0) && is_doc_key(kb@) {
                assert(gc == Collection::last_member(m0, kb@));
                assert(self.entries() =~= delete_effect(m0, kb@, Collection::last_member(m0, kb@)));
                lemma_delete_wf(m0, kb@, gc);
            }
        }
        match self.tree.flush() {
            Ok(()) => (),
            Err(e) => {
                return Err(DbError::DatabaseError(e));
            },
        }
        Ok(())
    }

    /// Delete a document by id.
    pub fn delete(&mut self, id: &str) -> (r: Result<(), DbError>)
        ensures
            final(self).meta() == old(self).meta(),
            !old(self).entries().dom().contains(vstd::utf8::encode_utf8(id@)) ==> (r matches Err(e)
                && (e is NotFound || e is DatabaseError)),
            ({
                let m = old(self).entries();
                let kb = vstd::utf8::encode_utf8(id@);
                match r {
                    Ok(()) => m.dom().contains(kb) && is_rec(m[kb]) && ((wf(m) && is_doc_key(kb))
                        ==> final(self).entries() == delete_effect(
                        m,
                        kb,
                        Collection::last_member(m, kb),
                    ) && wf(final(self).entries())),
                    Err(e) => match e {
                        DbError::NotFound => !m.dom().contains(kb) && final(self).entries() == m,
                        DbError::DeserializationError(_) => final(self).entries() == m
                            && m.dom().contains(kb) && !is_rec(m[kb]),
                        DbError::DatabaseError(_) => true,
                        _ => false,
                    },
                }
            }),
    {
        self.delete_json(id)
    }

    /// Whether a body schema is configured.
    pub fn has_schema(&self) -> (r: bool)
        ensures
            r == (self.meta().body_schema is Some),
    {
        self.metadata.body_schema.is_some()
    }

    /// The configured body schema text, if any.
    pub fn get_body_schema_json(&self) -> (r: Option<&str>)
        ensures
            match r {
                Some(s) => self.meta().body_schema matches Some(sch) && s@ == sch.schema_json@,
                None => self.meta().body_schema is None,
            },
    {
        match &self.metadata.body_schema {
            Some(s) => Some(s.schema_json.as_str()),
            None => None,
        }
    }

    /// The configured dependencies schema text, if any.
    pub fn get_dependencies_schema_json(&self) -> (r: Option<&str>)
        ensures
            match r {
                Some(s) => self.meta().dependencies_schema matches Some(sch) && s@
                    == sch.schema_json@,
                None => self.meta().dependencies_schema is None,
            },
    {
        match &self.metadata.dependencies_schema {
            Some(s) => Some(s.schema_json.as_str()),
            None => None,
        }
    }

    /// The collection's creation time, in seconds since the Unix epoch.
    pub fn get_created_at(&self) -> (r: u64)
        ensures
            r == self.meta().created_at,
    {
        self.metadata.created_at
    }

    /// The collection's name.
    pub fn get_name(&self) -> (r: String)
        ensures
            r@ == self.meta().name@,
    {
        self.metadata.name.clone()
    }
}

/// Parse a document request: a JSON object with exactly the two keys
/// `body` and `dependencies`. Returns the two field values.
fn parse_doc(bytes: &Vec<u8>) -> (r: Result<(Json, Json), DbError>)
    ensures
        match r {
            Ok(p) => parsed_doc(bytes@) == Some((p.0@, p.1@)),
            Err(e) => parsed_doc(bytes@) is None && e is DeserializationError,
        },
{
    let v = match crate::parse::parse_json_exec(bytes) {
        Some(v) => v,
        None => {
            return Err(DbError::DeserializationError("JSON parsing error".to_owned()));
        },
    };
    let ghost vm = v@;
    match v {
        Json::Obj(ms) => {
            let mut ms = ms;
            proof {
                crate::json::lemma_jview_members_elems(ms@);
                assert(vm == JsonM::Obj(crate::json::jview_members(ms@)));
            }
            let ghost mv = crate::json::jview_members(ms@);
            let bk = body_key_exec();
            let dk = deps_key_exec();
            if ms.len() != 2 {
                return Err(
                    DbError::DeserializationError(
                        "Invalid JSON structure: Message must contains exactly 2 keys: 'body' and 'dependencies'".to_owned(),
                    ),
                );
            }
            let first_is_body = ms[0].0 == bk;
            let second_is_deps = ms[1].0 == dk;
            let first_is_deps = ms[0].0 == dk;
            let second_is_body = ms[1].0 == bk;
            proof {
                assert(mv.drop_first()[0] == mv[1]);
                assert(mv.drop_first().drop_first() =~= Seq::<(Seq<u8>, JsonM)>::empty());
            }
            if first_is_body && second_is_deps {
                proof {
                    assert(mv[0].0 =~= body_key());
                    assert(mv[1].0 =~= deps_key());
                    assert(!(body_key() =~= deps_key()));
                    assert(obj_get(mv, body_key()) == Some(mv[0].1));
                    assert(obj_get(mv, deps_key()) == obj_get(mv.drop_first(), deps_key()));
                    assert(obj_get(mv, deps_key()) == Some(mv[1].1));
                }
                let d = match ms.pop() {
                    Some(p) => p.1,
                    None => {
                        return Err(DbError::DeserializationError("JSON parsing error".to_owned()));
                    },
                };
                let b = match ms.pop() {
                    Some(p) => p.1,
                    None => {
                        return Err(DbError::DeserializationError("JSON parsing error".to_owned()));
                    },
                };
                return Ok((b, d));
            }
            if first_is_deps && second_is_body {
                proof {
                    assert(mv[0].0 =~= deps_key());
                    assert(mv[1].0 =~= body_key());
                    assert(!(body_key() =~= deps_key()));
                    assert(obj_get(mv, deps_key()) == Some(mv[0].1));
                    assert(obj_get(mv, body_key()) == obj_get(mv.drop_first(), body_key()));
                    assert(obj_get(mv, body_key()) == Some(mv[1].1));
                }
                let b = match ms.pop() {
                    Some(p) => p.1,
                    None => {
                        return Err(DbError::DeserializationError("JSON parsing error".to_owned()));
                    },
                };
                let d = match ms.pop() {
                    Some(p) => p.1,
                    None => {
                        return Err(DbError::DeserializationError("JSON parsing error".to_owned()));
                    },
                };
                return Ok((b, d));
            }
            proof {
                let e2 = mv.drop_first().drop_first();
                assert(doc_fields(vm) is None) by {
                    if obj_get(mv, body_key()) is Some && obj_get(mv, deps_key()) is Some {
                        if mv[0].0 != body_key() && mv[1].0 != body_key() {
                            assert(obj_get(mv, body_key()) == obj_get(
                                mv.drop_first(),
                                body_key(),
                            ));
                            assert(obj_get(mv.drop_first(), body_key()) == obj_get(
                                e2,
                                body_key(),
                            ));
                            assert(obj_get(e2, body_key()) is None);
                            assert(false);
                        }
                        if mv[0].0 != deps_key() && mv[1].0 != deps_key() {
                            assert(obj_get(mv, deps_key()) == obj_get(mv.drop_first(), deps_key()));
                            assert(obj_get(mv.drop_first(), deps_key()) == obj_get(e2, deps_key()));
                            assert(obj_get(e2, deps_key()) is None);
                            assert(false);
                        }
                        assert(!(body_key() =~= deps_key()));
                    }
                }
            }
            Err(
                DbError::DeserializationError(
                    "Invalid JSON structure: Message must contains exactly 2 keys: 'body' and 'dependencies'".to_owned(),
                ),
            )
        },
        _ => Err(DbError::DeserializationError("Invalid JSON structure: Not an object".to_owned())),
    }
}

/// Build the `body` key bytes.
fn body_key_exec() -> (r: Vec<u8>)
    ensures
        r@ == body_key(),
{
    let mut out: Vec<u8> = Vec::new();
    out.push(98);
    out.push(111);
    out.push(100);
    out.push(121);
    proof {
        assert(out@ =~= body_key());
    }
    out
}

/// Build the `dependencies` key bytes.
fn deps_key_exec() -> (r: Vec<u8>)
    ensures
        r@ == deps_key(),
{
    let mut out: Vec<u8> = Vec::new();
    out.push(100);
    out.push(101);
    out.push(112);
    out.push(101);
    out.push(110);
    out.push(100);
    out.push(101);
    out.push(110);
    out.push(99);
    out.push(105);
    out.push(101);
    out.push(115);
    proof {
        assert(out@ =~= deps_key());
    }
    out
}

/// Render a stored digest for a diagnostic message (digests are hex, hence
/// ASCII; anything else is masked).
fn ascii_string_hash(h: &Vec<u8>) -> (r: String) {
    let mut safe: Vec<u8> = Vec::new();
    let mut i: usize = 0;
    while i < h.len()
        invariant
            forall|j: int| 0 <= j < safe@.len() ==> (#[trigger] safe@[j]) < 128,
        decreases h@.len() - i,
    {
        let b = h[i];
        if b < 128 {
            safe.push(b);
        } else {
            safe.push(63);
        }
        i = i + 1;
    }
    ascii_string(safe)
}

} // verus!
