//! A view of a collection pinned to one fixed dependency value.
//!
//! A subcollection holds the pinned value and its content digest; it owns
//! no storage. Every operation first checks membership: the document's
//! marker under the pinned digest must exist. Creating the view ensures the
//! pinned dependency blob exists (an idempotent, content-addressed write).

use vstd::prelude::*;

use crate::collection::{gate_ok, rejected, uncompiled, Collection};
use crate::errors::DbError;
use crate::hash::{digest, digest32};
use crate::json::{jview, ser, Json};
use crate::keys::{is_doc_key, is_rec, marker_hash, marker_id, marker_key, rec_body, rec_hash};
use crate::parse::parse_json;
use crate::state::{insert_effect, update_effect, wf, Entries};
use crate::store::WriteBatch;
use vstd::string::StrSliceExecFns;

verus! {

/// The ids list covers exactly the markers of group `h`: every listed id
/// is a member, and every member is listed.
pub open spec fn keys_ok(m: Entries, h: Seq<u8>, ids: Seq<String>) -> bool {
    &&& forall|j: int|
        0 <= j < ids.len() ==> m.dom().contains(
            marker_key(h, vstd::utf8::encode_utf8((#[trigger] ids[j])@)),
        )
    &&& forall|mk: Seq<u8>|
        #[trigger] m.dom().contains(mk) && crate::keys::is_marker_key(mk) && marker_hash(mk) == h
            ==> exists|j: int|
            0 <= j < ids.len() && vstd::utf8::encode_utf8((#[trigger] ids[j])@) == marker_id(mk)
    &&& forall|j1: int, j2: int|
        0 <= j1 < j2 < ids.len() ==> (#[trigger] ids[j1])@ != (#[trigger] ids[j2])@
}

/// The ids are listed in ascending raw-byte order of their marker keys.
pub open spec fn ids_ordered(h: Seq<u8>, ids: Seq<String>) -> bool {
    forall|j1: int, j2: int|
        0 <= j1 < j2 < ids.len() ==> crate::json::lex_lt(
            marker_key(h, vstd::utf8::encode_utf8((#[trigger] ids[j1])@)),
            marker_key(h, vstd::utf8::encode_utf8((#[trigger] ids[j2])@)),
        )
}

/// A collection view bound to one dependency value and its digest.
pub struct Subcollection {
    pub dependencies: Json,
    pub dependencies_hash: Vec<u8>,
}

impl Subcollection {
    /// The view is bound consistently: the stored digest is the digest of
    /// the pinned value's canonical bytes.
    pub open spec fn inv(self) -> bool {
        self.dependencies_hash@ == digest32(ser(self.dependencies@))
    }

    /// Check that document `id` belongs to this subcollection: its marker
    /// under the pinned digest exists.
    fn check_belongs(&self, c: &Collection, id: &str) -> (r: Result<Vec<u8>, DbError>)
        ensures
            ({
                let m = c.entries();
                let kb = vstd::utf8::encode_utf8(id@);
                match r {
                    Ok(kb2) => kb2@ == kb && m.dom().contains(
                        marker_key(self.dependencies_hash@, kb),
                    ),
                    Err(e) => match e {
                        DbError::NotFound => !m.dom().contains(
                            marker_key(self.dependencies_hash@, kb),
                        ),
                        DbError::DatabaseError(_) => true,
                        _ => false,
                    },
                }
            }),
    {
        let kb = id.as_bytes_vec();
        let mk = crate::keys::marker_key_exec(&self.dependencies_hash, &kb);
        match c.tree.get(&mk) {
            Ok(Some(_)) => Ok(kb),
            Ok(None) => Err(DbError::NotFound),
            Err(e) => Err(DbError::DatabaseError(e)),
        }
    }

    /// Insert a body into this subcollection: the document is the body
    /// paired with the pinned dependency value.
    pub fn insert_json(&self, c: &mut Collection, body_json: String) -> (r: Result<
        String,
        DbError,
    >)
        ensures
            final(c).meta() == old(c).meta(),
            match parse_json(vstd::utf8::encode_utf8(body_json@)) {
                None => r matches Err(e) && e is DeserializationError && final(c).entries() == old(
                    c,
                ).entries(),
                Some(b) => {
                    &&& r matches Ok(id) ==> {
                        &&& gate_ok(old(c).meta().body_schema, ser(b))
                        &&& gate_ok(
                            old(c).meta().dependencies_schema,
                            ser(self.dependencies@),
                        )
                        &&& is_doc_key(vstd::utf8::encode_utf8(id@))
                        &&& !old(c).entries().dom().contains(vstd::utf8::encode_utf8(id@))
                        &&& final(c).entries() == insert_effect(
                            old(c).entries(),
                            vstd::utf8::encode_utf8(id@),
                            ser(b),
                            ser(self.dependencies@),
                        )
                        &&& parse_json(ser(self.dependencies@)) is Some
                        &&& wf(old(c).entries()) ==> wf(final(c).entries())
                    }
                    &&& r matches Err(e) ==> match e {
                        DbError::SchemaError(_) => final(c).entries() == old(c).entries() && (
                        uncompiled(old(c).meta().body_schema) || (gate_ok(
                            old(c).meta().body_schema,
                            ser(b),
                        ) && uncompiled(old(c).meta().dependencies_schema))),
                        DbError::SchemaValidationError(_) => final(c).entries() == old(
                            c,
                        ).entries() && (rejected(old(c).meta().body_schema, ser(b)) || (gate_ok(
                            old(c).meta().body_schema,
                            ser(b),
                        ) && rejected(
                            old(c).meta().dependencies_schema,
                            ser(self.dependencies@),
                        ))),
                        DbError::SerializationError(_) => final(c).entries() == old(c).entries()
                            && parse_json(ser(self.dependencies@)) is None,
                        DbError::DatabaseError(_) => true,
                        _ => false,
                    }
                    &&& uncompiled(old(c).meta().body_schema) || (gate_ok(
                        old(c).meta().body_schema,
                        ser(b),
                    ) && uncompiled(old(c).meta().dependencies_schema)) ==> (r matches Err(e) && e
                        is SchemaError)
                    &&& rejected(old(c).meta().body_schema, ser(b)) || (gate_ok(
                        old(c).meta().body_schema,
                        ser(b),
                    ) && rejected(
                        old(c).meta().dependencies_schema,
                        ser(self.dependencies@),
                    )) ==> (r matches Err(e) && e is SchemaValidationError)
                },
            },
    {
        let bytes = body_json.as_str().as_bytes_vec();
        let b = match crate::parse::parse_json_exec(&bytes) {
            Some(v) => v,
            None => {
                return Err(DbError::DeserializationError("JSON parsing error".to_owned()));
            },
        };
        c.insert_doc(&b, &self.dependencies)
    }

    /// Fetch the body of a member document. A document outside this
    /// subcollection — even one the collection can read — is `NotFound`.
    pub fn get_json(&self, c: &Collection, id: &str) -> (r: Result<String, DbError>)
        ensures
            !c.entries().dom().contains(
                marker_key(self.dependencies_hash@, vstd::utf8::encode_utf8(id@)),
            ) ==> (r matches Err(e) && (e is NotFound || e is DatabaseError)),
            ({
                let m = c.entries();
                let kb = vstd::utf8::encode_utf8(id@);
                let mk = marker_key(self.dependencies_hash@, kb);
                match r {
                    Ok(text) => m.dom().contains(mk) && m.dom().contains(kb) && is_rec(m[kb])
                        && vstd::utf8::encode_utf8(text@) == rec_body(m[kb]),
                    Err(e) => match e {
                        DbError::NotFound => !m.dom().contains(mk) || !m.dom().contains(kb),
                        DbError::DeserializationError(_) => m.dom().contains(mk)
                            && m.dom().contains(kb) && !is_rec(m[kb]),
                        DbError::SerializationError(_) => m.dom().contains(mk)
                            && m.dom().contains(kb) && is_rec(m[kb]) && !(exists|t: Seq<char>|
                            vstd::utf8::encode_utf8(t) == rec_body(m[kb])),
                        DbError::DatabaseError(_) => true,
                        _ => false,
                    },
                }
            }),
    {
        let kb = match self.check_belongs(c, id) {
            Ok(kb) => kb,
            Err(e) => {
                return Err(e);
            },
        };
        let rec = match c.tree.get(&kb) {
            Ok(Some(v)) => v,
            Ok(None) => {
                return Err(DbError::NotFound);
            },
            Err(e) => {
                return Err(DbError::DatabaseError(e));
            },
        };
        let (_h, body_bytes) = match crate::keys::rec_split(&rec) {
            Some(p) => p,
            None => {
                return Err(
                    DbError::DeserializationError(
                        "Invalid storage structure: missing 'body'".to_owned(),
                    ),
                );
            },
        };
        match crate::store::bytes_to_string(body_bytes) {
            Ok(s) => Ok(s),
            Err(_) => Err(DbError::SerializationError("Failed to serialize body".to_owned())),
        }
    }

    /// Update the body of a member document, keeping the pinned
    /// dependencies; delegates to the collection's document-level update,
    /// so the body schema gate applies.
    #[verifier::rlimit(100)]
    #[verifier::spinoff_prover]
    pub fn update_json(&self, c: &mut Collection, id: &str, body_json: String) -> (r: Result<
        (),
        DbError,
    >)
        ensures
            final(c).meta() == old(c).meta(),
            !old(c).entries().dom().contains(
                marker_key(self.dependencies_hash@, vstd::utf8::encode_utf8(id@)),
            ) ==> (r matches Err(e) && (e is NotFound || e is DatabaseError) && (e is NotFound
                ==> final(c).entries() == old(c).entries())),
            ({
                let m = old(c).entries();
                let kb = vstd::utf8::encode_utf8(id@);
                let mk = marker_key(self.dependencies_hash@, kb);
                match r {
                    Ok(()) => m.dom().contains(mk) && m.dom().contains(kb) && is_rec(m[kb])
                        && match parse_json(vstd::utf8::encode_utf8(body_json@)) {
                        Some(b) => gate_ok(old(c).meta().body_schema, ser(b)) && gate_ok(
                            old(c).meta().dependencies_schema,
                            ser(self.dependencies@),
                        ) && ((wf(m) && self.inv()) ==> (final(c).entries() == m
                            || final(c).entries() == m.insert(
                            kb,
                            crate::keys::rec_bytes(rec_hash(m[kb]), ser(b)),
                        ))) && if ser(b) == rec_body(m[kb]) && digest32(
                            ser(self.dependencies@),
                        ) == rec_hash(m[kb]) {
                            final(c).entries() == m
                        } else {
                            final(c).entries() == update_effect(
                                m,
                                kb,
                                ser(b),
                                ser(self.dependencies@),
                            ) && ((wf(m) && is_doc_key(kb)) ==> wf(final(c).entries()))
                        },
                        None => false,
                    },
                    Err(e) => match e {
                        DbError::NotFound => (!m.dom().contains(mk) || !m.dom().contains(kb))
                            && final(c).entries() == m,
                        DbError::DeserializationError(_) => final(c).entries() == m && (parse_json(
                            vstd::utf8::encode_utf8(body_json@),
                        ) is None || (m.dom().contains(kb) && !is_rec(m[kb]))),
                        DbError::SchemaError(_) => final(c).entries() == m && m.dom().contains(
                            mk,
                        ) && match parse_json(vstd::utf8::encode_utf8(body_json@)) {
                            Some(b) => uncompiled(old(c).meta().body_schema) || (gate_ok(
                                old(c).meta().body_schema,
                                ser(b),
                            ) && uncompiled(old(c).meta().dependencies_schema)),
                            None => false,
                        },
                        DbError::SchemaValidationError(_) => final(c).entries() == m
                            && m.dom().contains(mk) && match parse_json(
                            vstd::utf8::encode_utf8(body_json@),
                        ) {
                            Some(b) => rejected(old(c).meta().body_schema, ser(b)) || (gate_ok(
                                old(c).meta().body_schema,
                                ser(b),
                            ) && rejected(
                                old(c).meta().dependencies_schema,
                                ser(self.dependencies@),
                            )),
                            None => false,
                        },
                        DbError::SerializationError(_) => final(c).entries() == m
                            && parse_json(ser(self.dependencies@)) is None,
                        DbError::DatabaseError(_) => true,
                        _ => false,
                    },
                }
            }),
            ({
                let m = old(c).entries();
                let kb = vstd::utf8::encode_utf8(id@);
                let mk = marker_key(self.dependencies_hash@, kb);
                m.dom().contains(mk) && m.dom().contains(kb) && is_rec(m[kb]) && match parse_json(
                    vstd::utf8::encode_utf8(body_json@),
                ) {
                    Some(b) => rejected(old(c).meta().body_schema, ser(b)) || (gate_ok(
                        old(c).meta().body_schema,
                        ser(b),
                    ) && rejected(
                        old(c).meta().dependencies_schema,
                        ser(self.dependencies@),
                    )),
                    None => false,
                } ==> (r matches Err(e) && (e is SchemaValidationError || e is DatabaseError))
            }),
    {
        let ghost m0 = c.entries();
        let kb = match self.check_belongs(c, id) {
            Ok(kb) => kb,
            Err(e) => {
                return Err(e);
            },
        };
        let bytes = body_json.as_str().as_bytes_vec();
        let b = match crate::parse::parse_json_exec(&bytes) {
            Some(v) => v,
            None => {
                return Err(DbError::DeserializationError("JSON parsing error".to_owned()));
            },
        };
        let r = c.update_doc(id, &b, &self.dependencies);
        proof {
            let h = self.dependencies_hash@;
            let mk = marker_key(h, kb@);
            if r is Ok && wf(m0) && self.inv() {
                crate::hash::lemma_digest32_shape(ser(self.dependencies@));
                assert(m0.dom().contains(mk));
                assert(crate::state::key_shape_ok(mk));
                assert(mk.len() == 33 + kb@.len());
                assert(crate::keys::is_marker_key(mk));
                assert(crate::state::marker_ok(m0, mk));
                assert(marker_hash(mk) =~= h);
                assert(marker_id(mk) =~= kb@);
                assert(rec_hash(m0[kb@]) == digest32(ser(self.dependencies@)));
            }
        }
        r
    }

    /// Delete a member document through the collection's delete, after the
    /// membership check.
    pub fn delete_json(&self, c: &mut Collection, id: &str) -> (r: Result<(), DbError>)
        ensures
            final(c).meta() == old(c).meta(),
            !old(c).entries().dom().contains(
                marker_key(self.dependencies_hash@, vstd::utf8::encode_utf8(id@)),
            ) ==> (r matches Err(e) && (e is NotFound || e is DatabaseError) && (e is NotFound
                ==> final(c).entries() == old(c).entries())),
            ({
                let m = old(c).entries();
                let kb = vstd::utf8::encode_utf8(id@);
                let mk = marker_key(self.dependencies_hash@, kb);
                match r {
                    Ok(()) => m.dom().contains(mk) && m.dom().contains(kb) && is_rec(m[kb]) && ((
                    wf(m) && is_doc_key(kb)) ==> final(c).entries()
                        == crate::state::delete_effect(
                        m,
                        kb,
                        Collection::last_member(m, kb),
                    ) && wf(final(c).entries())),
                    Err(e) => match e {
                        DbError::NotFound => (!m.dom().contains(mk) || !m.dom().contains(kb))
                            && final(c).entries() == m,
                        DbError::DeserializationError(_) => final(c).entries() == m
                            && m.dom().contains(mk) && m.dom().contains(kb) && !is_rec(m[kb]),
                        DbError::DatabaseError(_) => true,
                        _ => false,
                    },
                }
            }),
    {
        match self.check_belongs(c, id) {
            Ok(_) => (),
            Err(e) => {
                return Err(e);
            },
        }
        c.delete_json(id)
    }

    /// Delete a member document by id.
    pub fn delete(&self, c: &mut Collection, id: &str) -> (r: Result<(), DbError>)
        ensures
            final(c).meta() == old(c).meta(),
            !old(c).entries().dom().contains(
                marker_key(self.dependencies_hash@, vstd::utf8::encode_utf8(id@)),
            ) ==> (r matches Err(e) && (e is NotFound || e is DatabaseError) && (e is NotFound
                ==> final(c).entries() == old(c).entries())),
            ({
                let m = old(c).entries();
                let kb = vstd::utf8::encode_utf8(id@);
                let mk = marker_key(self.dependencies_hash@, kb);
                match r {
                    Ok(()) => m.dom().contains(mk) && m.dom().contains(kb) && is_rec(m[kb]) && ((
                    wf(m) && is_doc_key(kb)) ==> final(c).entries()
                        == crate::state::delete_effect(
                        m,
                        kb,
                        Collection::last_member(m, kb),
                    ) && wf(final(c).entries())),
                    Err(e) => match e {
                        DbError::NotFound => (!m.dom().contains(mk) || !m.dom().contains(kb))
                            && final(c).entries() == m,
                        DbError::DeserializationError(_) => final(c).entries() == m
                            && m.dom().contains(mk) && m.dom().contains(kb) && !is_rec(m[kb]),
                        DbError::DatabaseError(_) => true,
                        _ => false,
                    },
                }
            }),
    {
        self.delete_json(c, id)
    }

    /// The ids of every member of this subcollection, read back from the
    /// marker keys under the pinned digest.
    #[verifier::rlimit(100)]
    #[verifier::spinoff_prover]
    pub fn get_keys(&self, c: &Collection) -> (r: Result<Vec<String>, DbError>)
        ensures
            match r {
                Ok(ids) => (wf(c.entries()) && crate::keys::is_blob_key(self.dependencies_hash@))
                    ==> keys_ok(c.entries(), self.dependencies_hash@, ids@) && ids_ordered(
                    self.dependencies_hash@,
                    ids@,
                ),
                Err(e) => e is DatabaseError,
            },
    {
        let prefix = crate::keys::marker_prefix_exec(&self.dependencies_hash);
        let keys = match c.tree.scan_keys(&prefix) {
            Ok(ks) => ks,
            Err(e) => {
                return Err(DbError::DatabaseError(e));
            },
        };
        let ids = collect_ids(&keys);
        proof {
            let m = c.entries();
            let h = self.dependencies_hash@;
            if wf(m) && crate::keys::is_blob_key(h) {
                lemma_scan_marks(m, h, keys@);
                lemma_keys_facts(m, h, keys@, ids@);
            }
        }
        Ok(ids)
    }
}

/// Convert marker keys to ids, skipping anything that is not a marker.
fn collect_ids(keys: &Vec<Vec<u8>>) -> (ids: Vec<String>)
    ensures
        (forall|j: int| 0 <= j < keys@.len() ==> crate::keys::is_marker_key((#[trigger] keys@[j])@))
            ==> ids@.len() == keys@.len() && forall|j: int|
            0 <= j < ids@.len() ==> vstd::utf8::encode_utf8((#[trigger] ids@[j])@) == marker_id(
                keys@[j]@,
            ),
{
    let ghost all_marks = forall|j: int|
        0 <= j < keys@.len() ==> crate::keys::is_marker_key((#[trigger] keys@[j])@);
    let mut ids: Vec<String> = Vec::new();
    let mut i: usize = 0;
    while i < keys.len()
        invariant
            i <= keys@.len(),
            all_marks == (forall|j: int|
                0 <= j < keys@.len() ==> crate::keys::is_marker_key((#[trigger] keys@[j])@)),
            all_marks ==> ids@.len() == i,
            all_marks ==> forall|j: int|
                0 <= j < i ==> vstd::utf8::encode_utf8((#[trigger] ids@[j])@) == marker_id(
                    keys@[j]@,
                ),
        decreases keys@.len() - i,
    {
        match key_to_id(&keys[i]) {
            Some(s) => {
                ids.push(s);
            },
            None => {
                proof {
                    if all_marks {
                        assert(crate::keys::is_marker_key(keys@[i as int]@));
                        assert(false);
                    }
                }
            },
        }
        i = i + 1;
    }
    ids
}

/// Every key a marker scan returns under a well-formed keyspace is a
/// marker key of the scanned group.
proof fn lemma_scan_marks(m: Entries, h: Seq<u8>, keys: Seq<Vec<u8>>)
    requires
        wf(m),
        crate::keys::is_blob_key(h),
        forall|j: int|
            0 <= j < keys.len() ==> m.dom().contains((#[trigger] keys[j])@)
                && crate::store::has_prefix(keys[j]@, crate::keys::marker_prefix(h)),
    ensures
        forall|j: int|
            0 <= j < keys.len() ==> crate::keys::is_marker_key((#[trigger] keys[j])@)
                && marker_hash(keys[j]@) == h,
{
    assert forall|j: int| 0 <= j < keys.len() implies crate::keys::is_marker_key(
        (#[trigger] keys[j])@,
    ) && marker_hash(keys[j]@) == h by {
        assert(m.dom().contains(keys[j]@));
        assert(crate::state::key_shape_ok(keys[j]@));
        assert(keys[j]@.len() >= 33);
        crate::keys::lemma_marker_prefix_iff(h, keys[j]@);
    }
}

/// The collected ids cover exactly the markers of the group.
proof fn lemma_keys_facts(m: Entries, h: Seq<u8>, keys: Seq<Vec<u8>>, ids: Seq<String>)
    requires
        wf(m),
        crate::keys::is_blob_key(h),
        forall|j: int|
            0 <= j < keys.len() ==> m.dom().contains((#[trigger] keys[j])@)
                && crate::store::has_prefix(keys[j]@, crate::keys::marker_prefix(h)),
        forall|mk: Seq<u8>|
            m.dom().contains(mk) && crate::store::has_prefix(mk, crate::keys::marker_prefix(h))
                ==> exists|j: int| 0 <= j < keys.len() && (#[trigger] keys[j])@ == mk,
        forall|j1: int, j2: int|
            0 <= j1 < j2 < keys.len() ==> crate::json::lex_lt(
                (#[trigger] keys[j1])@,
                (#[trigger] keys[j2])@,
            ),
        ids.len() == keys.len(),
        forall|j: int|
            0 <= j < ids.len() ==> vstd::utf8::encode_utf8((#[trigger] ids[j])@) == marker_id(
                keys[j]@,
            ),
    ensures
        keys_ok(m, h, ids),
        ids_ordered(h, ids),
{
    lemma_scan_marks(m, h, keys);
    assert forall|j: int| 0 <= j < ids.len() implies m.dom().contains(
        marker_key(h, vstd::utf8::encode_utf8((#[trigger] ids[j])@)),
    ) by {
        crate::keys::lemma_marker_reconstruct(keys[j]@);
    }
    assert forall|mk: Seq<u8>|
        #[trigger] m.dom().contains(mk) && crate::keys::is_marker_key(mk) && marker_hash(mk)
            == h implies exists|j: int|
        0 <= j < ids.len() && vstd::utf8::encode_utf8((#[trigger] ids[j])@) == marker_id(mk) by {
        crate::keys::lemma_marker_prefix_iff(h, mk);
        let j = choose|j: int| 0 <= j < keys.len() && (#[trigger] keys[j])@ == mk;
        assert(vstd::utf8::encode_utf8(ids[j]@) == marker_id(mk));
    }
    assert forall|j1: int, j2: int| 0 <= j1 < j2 < ids.len() implies (#[trigger] ids[j1])@ != (
    #[trigger] ids[j2])@ by {
        crate::keys::lemma_marker_reconstruct(keys[j1]@);
        crate::keys::lemma_marker_reconstruct(keys[j2]@);
        if ids[j1]@ == ids[j2]@ {
            assert(marker_id(keys[j1]@) == marker_id(keys[j2]@));
            assert(keys[j1]@ == marker_key(h, marker_id(keys[j1]@)));
            assert(keys[j2]@ == marker_key(h, marker_id(keys[j2]@)));
            assert(crate::json::lex_lt(keys[j1]@, keys[j1]@));
            crate::json::lemma_lex_from_irrefl(keys[j1]@, 0);
        }
    }
    assert forall|j1: int, j2: int| 0 <= j1 < j2 < ids.len() implies crate::json::lex_lt(
        marker_key(h, vstd::utf8::encode_utf8((#[trigger] ids[j1])@)),
        marker_key(h, vstd::utf8::encode_utf8((#[trigger] ids[j2])@)),
    ) by {
        crate::keys::lemma_marker_reconstruct(keys[j1]@);
        crate::keys::lemma_marker_reconstruct(keys[j2]@);
        assert(marker_key(h, vstd::utf8::encode_utf8(ids[j1]@)) == keys[j1]@);
        assert(marker_key(h, vstd::utf8::encode_utf8(ids[j2]@)) == keys[j2]@);
    }
}

/// Recover the document id
/// Recover the document id from a marker key: the bytes after the
/// 33-byte digest-and-separator prefix, as a string.
fn key_to_id(k: &Vec<u8>) -> (r: Option<String>)
    ensures
        crate::keys::is_marker_key(k@) ==> (r matches Some(s) && vstd::utf8::encode_utf8(s@)
            == marker_id(k@)),
{
    if k.len() < 33 {
        return None;
    }
    let idb = crate::parse::sub_vec(k, 33, k.len());
    proof {
        if crate::keys::is_marker_key(k@) {
            assert(idb@ =~= marker_id(k@));
            assert(is_doc_key(idb@));
            let t = idb@.map_values(|b: u8| b as char);
            assert(vstd::utf8::is_ascii_chars(t)) by {
                assert forall|x: int| 0 <= x < t.len() implies ((#[trigger] t[x]) as nat)
                    < 128 by {
                    assert(t[x] == idb@[x] as char);
                    assert(crate::keys::is_alnum(idb@[x]));
                }
            }
            vstd::utf8::is_ascii_chars_encode_utf8(t);
            assert(vstd::utf8::encode_utf8(t) =~= idb@) by {
                assert(vstd::utf8::encode_utf8(t) =~= Seq::new(t.len(), |x: int| t[x] as u8));
                assert forall|x: int| 0 <= x < t.len() implies t[x] as u8 == idb@[x] by {
                    assert(t[x] == idb@[x] as char);
                }
            }
        }
    }
    match crate::store::bytes_to_string(idb) {
        Ok(s) => Some(s),
        Err(_) => None,
    }
}

impl Collection {
    /// Bind a subcollection to the given dependency value, ensuring its
    /// content-addressed blob exists (an idempotent write, flushed at
    /// once).
    pub fn subcollection_json(&mut self, dependencies_json: String) -> (r: Result<
        Subcollection,
        DbError,
    >)
        ensures
            final(self).meta() == old(self).meta(),
            match parse_json(vstd::utf8::encode_utf8(dependencies_json@)) {
                None => r matches Err(e) && e is DeserializationError && final(self).entries()
                    == old(self).entries(),
                Some(d) => match r {
                    Ok(sc) => {
                        &&& sc.dependencies@ == d
                        &&& sc.dependencies_hash@ == digest32(ser(d))
                        &&& sc.inv()
                        &&& final(self).entries() == if old(self).entries().dom().contains(
                            digest32(ser(d)),
                        ) {
                            old(self).entries()
                        } else {
                            old(self).entries().insert(digest32(ser(d)), ser(d))
                        }
                        &&& wf(old(self).entries()) ==> wf(final(self).entries())
                    },
                    Err(e) => e is DatabaseError,
                },
            },
    {
        let bytes = dependencies_json.as_str().as_bytes_vec();
        let d = match crate::parse::parse_json_exec(&bytes) {
            Some(v) => v,
            None => {
                return Err(DbError::DeserializationError("JSON parsing error".to_owned()));
            },
        };
        let deps_bytes = crate::json::to_bytes(&d);
        let h = digest(&deps_bytes);
        let present = match self.tree.get(&h) {
            Ok(o) => o.is_some(),
            Err(e) => {
                return Err(DbError::DatabaseError(e));
            },
        };
        if !present {
            let ghost m0 = self.entries();
            let mut batch = WriteBatch::new();
            batch.set(&h, &deps_bytes);
            match self.tree.apply(batch) {
                Ok(()) => (),
                Err(e) => {
                    return Err(DbError::DatabaseError(e));
                },
            }
            proof {
                assert(self.entries() =~~= m0.insert(digest32(ser(jview(d))), ser(jview(d))));
                if wf(m0) {
                    crate::state::lemma_blob_write_wf(m0, ser(jview(d)));
                }
            }
            match self.tree.flush() {
                Ok(()) => (),
                Err(e) => {
                    return Err(DbError::DatabaseError(e));
                },
            }
        }
        Ok(Subcollection { dependencies: d, dependencies_hash: h })
    }
}

} // verus!
