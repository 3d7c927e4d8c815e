//! The registry of named collections.
//!
//! Creating a collection opens a fresh namespace and durably writes its
//! metadata — name, creation time, and optional body/dependencies schemas —
//! as canonical JSON under the reserved key. Reading a collection back
//! parses that record and recompiles any configured schemas.

use vstd::prelude::*;

use crate::collection::{ascii_string, Collection, CollectionMetadata};
use crate::errors::DbError;
use crate::hash::digest;
use crate::json::{dec_val, is_dec, obj_get, Json, JsonM};
use crate::keys::meta_key;
use crate::parse::parse_json;
use crate::schema::{schema_compiles, Schema};
use crate::state::wf;
use crate::store::{store_names, Store, WriteBatch};
use vstd::string::{StrSliceExecFns, StringExecFns};

verus! {

broadcast use vstd::std_specs::vec::group_vec_axioms;

/// A handle on the store and its collections.
pub struct Database {
    pub store: Store,
}

// The member keys of the metadata record.
pub open spec fn k_body_schema() -> Seq<u8> {
    seq![98u8, 111u8, 100u8, 121u8, 95u8, 115u8, 99u8, 104u8, 101u8, 109u8, 97u8]
}

pub open spec fn k_created_at() -> Seq<u8> {
    seq![99u8, 114u8, 101u8, 97u8, 116u8, 101u8, 100u8, 95u8, 97u8, 116u8]
}

pub open spec fn k_dependencies_schema() -> Seq<u8> {
    seq![
        100u8,
        101u8,
        112u8,
        101u8,
        110u8,
        100u8,
        101u8,
        110u8,
        99u8,
        105u8,
        101u8,
        115u8,
        95u8,
        115u8,
        99u8,
        104u8,
        101u8,
        109u8,
        97u8,
    ]
}

pub open spec fn k_name() -> Seq<u8> {
    seq![110u8, 97u8, 109u8, 101u8]
}

pub open spec fn k_schema_hash() -> Seq<u8> {
    seq![115u8, 99u8, 104u8, 101u8, 109u8, 97u8, 95u8, 104u8, 97u8, 115u8, 104u8]
}

pub open spec fn k_schema_json() -> Seq<u8> {
    seq![115u8, 99u8, 104u8, 101u8, 109u8, 97u8, 95u8, 106u8, 115u8, 111u8, 110u8]
}

/// The schema part of a metadata record: an object carrying the schema
/// text and its content hash.
pub open spec fn sch_of(v: JsonM) -> Option<(Seq<u8>, Seq<u8>)> {
    match v {
        JsonM::Obj(ms) => match (obj_get(ms, k_schema_json()), obj_get(ms, k_schema_hash())) {
            (Some(JsonM::Str(sj)), Some(JsonM::Str(sh))) => Some((sj, sh)),
            _ => None,
        },
        _ => None,
    }
}

/// What a parsed metadata record denotes: name bytes, optional
/// (schema text, schema hash) pairs, and the creation time.
pub open spec fn meta_of(v: JsonM) -> Option<
    (Seq<u8>, Option<(Seq<u8>, Seq<u8>)>, Option<(Seq<u8>, Seq<u8>)>, int),
> {
    match v {
        JsonM::Obj(ms) => {
            let nm = obj_get(ms, k_name());
            let ca = obj_get(ms, k_created_at());
            if nm matches Some(JsonM::Str(nb)) && ca matches Some(JsonM::Num(lex)) && is_dec(lex)
                && dec_val(lex) <= u64::MAX {
                let bs = match obj_get(ms, k_body_schema()) {
                    None => Some(None),
                    Some(sv) => match sch_of(sv) {
                        Some(p) => Some(Some(p)),
                        None => None,
                    },
                };
                let ds = match obj_get(ms, k_dependencies_schema()) {
                    None => Some(None),
                    Some(sv) => match sch_of(sv) {
                        Some(p) => Some(Some(p)),
                        None => None,
                    },
                };
                match (bs, ds) {
                    (Some(b), Some(d)) => Some(
                        (nm->0->Str_0, b, d, dec_val(ca->0->Num_0)),
                    ),
                    _ => None,
                }
            } else {
                None
            }
        },
        _ => None,
    }
}

/// Whether one optional schema of a metadata value corresponds to a loaded
/// `Schema`.
pub open spec fn sch_matches(p: Option<(Seq<u8>, Seq<u8>)>, s: Option<Schema>) -> bool {
    match (p, s) {
        (None, None) => true,
        (Some(pp), Some(ss)) => vstd::utf8::encode_utf8(ss.schema_json@) == pp.0
            && vstd::utf8::encode_utf8(ss.schema_hash@) == pp.1,
        _ => false,
    }
}

/// Whether a parsed metadata value corresponds to loaded collection
/// metadata.
pub open spec fn meta_matches(v: JsonM, md: CollectionMetadata) -> bool {
    match meta_of(v) {
        Some(t) => {
            &&& vstd::utf8::encode_utf8(md.name@) == t.0
            &&& sch_matches(t.1, md.body_schema)
            &&& sch_matches(t.2, md.dependencies_schema)
            &&& md.created_at == t.3
        },
        None => false,
    }
}

impl Database {
    /// Open (or create) the store at `path`, or at `./dbuf_db` when no
    /// path is given.
    pub fn new(path: Option<&str>) -> (r: Result<Database, DbError>)
        ensures
            r matches Err(e) ==> e is DatabaseError,
    {
        let p = match path {
            Some(p) => p,
            None => "./dbuf_db",
        };
        match Store::open(p) {
            Ok(store) => Ok(Database { store }),
            Err(e) => Err(DbError::DatabaseError(e)),
        }
    }

    /// Whether a tree with these name bytes exists.
    fn name_present(&self, nb: &Vec<u8>) -> (r: bool)
        ensures
            r == store_names(self.store).contains(nb@),
    {
        let names = self.store.names();
        let mut i: usize = 0;
        while i < names.len()
            invariant
                i <= names@.len(),
                forall|j: int|
                    0 <= j < names@.len() ==> store_names(self.store).contains(
                        (#[trigger] names@[j])@,
                    ),
                forall|n: Seq<u8>|
                    store_names(self.store).contains(n) ==> exists|j: int|
                        0 <= j < names@.len() && (#[trigger] names@[j])@ == n,
                forall|j: int| 0 <= j < i ==> (#[trigger] names@[j])@ != nb@,
            decreases names@.len() - i,
        {
            let hit = names[i] == *nb;
            if hit {
                proof {
                    assert(names@[i as int]@ =~= nb@);
                }
                return true;
            }
            proof {
                assert(!(names@[i as int]@ =~= nb@)) by {
                    if names@[i as int]@ =~= nb@ {
                        assert(names@[i as int]@ == nb@);
                    }
                }
            }
            i = i + 1;
        }
        false
    }

    /// Create a collection with no schema. Fails with `AlreadyExists` when
    /// the name is taken; otherwise opens the namespace and durably writes
    /// its metadata.
    pub fn create_collection(&mut self, name: &str) -> (r: Result<Collection, DbError>)
        ensures
            ({
                let nb = vstd::utf8::encode_utf8(name@);
                match r {
                    Ok(c) => {
                        &&& !store_names(old(self).store).contains(nb)
                        &&& store_names(final(self).store) == store_names(
                            old(self).store,
                        ).insert(nb)
                        &&& c.meta().name@ == name@
                        &&& c.meta().body_schema is None
                        &&& c.meta().dependencies_schema is None
                        &&& wf(c.entries())
                        &&& forall|k: Seq<u8>| c.entries().dom().contains(k) <==> k == meta_key()
                        &&& parse_json(c.entries()[meta_key()]) matches Some(v) && meta_matches(
                            v,
                            c.meta(),
                        )
                    },
                    Err(e) => match e {
                        DbError::AlreadyExists(_) => store_names(old(self).store).contains(nb)
                            && *final(self) == *old(self),
                        DbError::SerializationError(_) => !store_names(old(self).store).contains(
                            nb,
                        ) && *final(self) == *old(self),
                        DbError::DatabaseError(_) => !store_names(old(self).store).contains(nb),
                        _ => false,
                    },
                }
            }),
            store_names(old(self).store).contains(vstd::utf8::encode_utf8(name@)) ==> (r matches
                Err(e) && e is AlreadyExists),
    {
        let nb = name.as_bytes_vec();
        if self.name_present(&nb) {
            let mut msg = String::from_str("Collection ");
            msg.append(name);
            msg.append(" already exists");
            return Err(DbError::AlreadyExists(msg));
        }
        let created_at = crate::store::unix_now_secs();
        let metadata = CollectionMetadata {
            name: name.to_owned(),
            body_schema: None,
            dependencies_schema: None,
            created_at,
        };
        let meta_bytes = match checked_metadata(&metadata) {
            Ok(b) => b,
            Err(e) => {
                return Err(e);
            },
        };
        let mut tree = match self.store.open_tree(&nb) {
            Ok(t) => t,
            Err(e) => {
                return Err(DbError::DatabaseError(e));
            },
        };
        let mk = crate::keys::meta_key_exec();
        let mut batch = WriteBatch::new();
        batch.set(&mk, &meta_bytes);
        match tree.apply(batch) {
            Ok(()) => (),
            Err(e) => {
                return Err(DbError::DatabaseError(e));
            },
        }
        proof {
            lemma_meta_only_wf(crate::store::tree_entries(tree));
            assert(crate::store::tree_entries(tree)[meta_key()] == meta_bytes@);
        }
        match tree.flush() {
            Ok(()) => (),
            Err(e) => {
                return Err(DbError::DatabaseError(e));
            },
        }
        Ok(Collection { tree, metadata })
    }

    /// Create a collection gated by the given body and dependencies
    /// schemas. The texts must parse as JSON (`DeserializationError`) and
    /// compile under draft 7 (`SchemaCompilationError`) before anything is
    /// written.
    pub fn create_collection_with_schema_json(
        &mut self,
        name: &str,
        body_schema_json: &str,
        deps_schema_json: &str,
    ) -> (r: Result<Collection, DbError>)
        ensures
            ({
                let nb = vstd::utf8::encode_utf8(name@);
                match r {
                    Ok(c) => {
                        &&& !store_names(old(self).store).contains(nb)
                        &&& store_names(final(self).store) == store_names(
                            old(self).store,
                        ).insert(nb)
                        &&& c.meta().name@ == name@
                        &&& c.meta().body_schema matches Some(s) && s.schema_json@
                            == body_schema_json@ && s.compiled
                        &&& c.meta().dependencies_schema matches Some(s) && s.schema_json@
                            == deps_schema_json@ && s.compiled
                        &&& schema_compiles(body_schema_json@)
                        &&& schema_compiles(deps_schema_json@)
                        &&& parse_json(vstd::utf8::encode_utf8(body_schema_json@)) is Some
                        &&& parse_json(vstd::utf8::encode_utf8(deps_schema_json@)) is Some
                        &&& wf(c.entries())
                        &&& forall|k: Seq<u8>| c.entries().dom().contains(k) <==> k == meta_key()
                        &&& parse_json(c.entries()[meta_key()]) matches Some(v) && meta_matches(
                            v,
                            c.meta(),
                        )
                    },
                    Err(e) => match e {
                        DbError::AlreadyExists(_) => store_names(old(self).store).contains(nb)
                            && *final(self) == *old(self),
                        DbError::DeserializationError(_) => !store_names(old(self).store).contains(
                            nb,
                        ) && *final(self) == *old(self) && (parse_json(
                            vstd::utf8::encode_utf8(body_schema_json@),
                        ) is None || parse_json(vstd::utf8::encode_utf8(deps_schema_json@)) is None),
                        DbError::SchemaCompilationError(_) => !store_names(
                            old(self).store,
                        ).contains(nb) && *final(self) == *old(self) && parse_json(
                            vstd::utf8::encode_utf8(body_schema_json@),
                        ) is Some && parse_json(vstd::utf8::encode_utf8(deps_schema_json@)) is Some
                            && !(schema_compiles(body_schema_json@) && schema_compiles(
                            deps_schema_json@,
                        )),
                        DbError::SerializationError(_) => !store_names(old(self).store).contains(
                            nb,
                        ) && *final(self) == *old(self) && schema_compiles(body_schema_json@)
                            && schema_compiles(deps_schema_json@),
                        DbError::DatabaseError(_) => !store_names(old(self).store).contains(nb)
                            && schema_compiles(body_schema_json@) && schema_compiles(
                            deps_schema_json@,
                        ),
                        _ => false,
                    },
                }
            }),
            store_names(old(self).store).contains(vstd::utf8::encode_utf8(name@)) ==> (r matches
                Err(e) && e is AlreadyExists),
            !store_names(old(self).store).contains(vstd::utf8::encode_utf8(name@)) && (parse_json(
                vstd::utf8::encode_utf8(body_schema_json@),
            ) is None || parse_json(vstd::utf8::encode_utf8(deps_schema_json@)) is None) ==> (r
                matches Err(e) && e is DeserializationError),
            !store_names(old(self).store).contains(vstd::utf8::encode_utf8(name@)) && parse_json(
                vstd::utf8::encode_utf8(body_schema_json@),
            ) is Some && parse_json(vstd::utf8::encode_utf8(deps_schema_json@)) is Some && !(
            schema_compiles(body_schema_json@) && schema_compiles(deps_schema_json@)) ==> (r
                matches Err(e) && e is SchemaCompilationError),
    {
        let nb = name.as_bytes_vec();
        if self.name_present(&nb) {
            let mut msg = String::from_str("Collection ");
            msg.append(name);
            msg.append(" already exists");
            return Err(DbError::AlreadyExists(msg));
        }
        let body_bytes = body_schema_json.as_bytes_vec();
        if crate::parse::parse_json_exec(&body_bytes).is_none() {
            return Err(
                DbError::DeserializationError("Body schema JSON parsing error".to_owned()),
            );
        }
        let deps_bytes = deps_schema_json.as_bytes_vec();
        if crate::parse::parse_json_exec(&deps_bytes).is_none() {
            return Err(
                DbError::DeserializationError("Dependencies schema JSON parsing error".to_owned()),
            );
        }
        let mut body_schema = Schema {
            schema_json: body_schema_json.to_owned(),
            schema_hash: hash_string(&body_bytes),
            compiled: false,
        };
        match body_schema.compile() {
            Ok(()) => (),
            Err(e) => {
                let mut msg = String::from_str("Failed to compile body schema: ");
                msg.append(e.message().as_str());
                return Err(DbError::SchemaCompilationError(msg));
            },
        }
        let mut deps_schema = Schema {
            schema_json: deps_schema_json.to_owned(),
            schema_hash: hash_string(&deps_bytes),
            compiled: false,
        };
        match deps_schema.compile() {
            Ok(()) => (),
            Err(e) => {
                let mut msg = String::from_str("Failed to compile dependencies schema: ");
                msg.append(e.message().as_str());
                return Err(DbError::SchemaCompilationError(msg));
            },
        }
        let created_at = crate::store::unix_now_secs();
        let metadata = CollectionMetadata {
            name: name.to_owned(),
            body_schema: Some(body_schema),
            dependencies_schema: Some(deps_schema),
            created_at,
        };
        let meta_bytes = match checked_metadata(&metadata) {
            Ok(b) => b,
            Err(e) => {
                return Err(e);
            },
        };
        let mut tree = match self.store.open_tree(&nb) {
            Ok(t) => t,
            Err(e) => {
                return Err(DbError::DatabaseError(e));
            },
        };
        let mk = crate::keys::meta_key_exec();
        let mut batch = WriteBatch::new();
        batch.set(&mk, &meta_bytes);
        match tree.apply(batch) {
            Ok(()) => (),
            Err(e) => {
                return Err(DbError::DatabaseError(e));
            },
        }
        proof {
            lemma_meta_only_wf(crate::store::tree_entries(tree));
            assert(crate::store::tree_entries(tree)[meta_key()] == meta_bytes@);
        }
        match tree.flush() {
            Ok(()) => (),
            Err(e) => {
                return Err(DbError::DatabaseError(e));
            },
        }
        Ok(Collection { tree, metadata })
    }

    /// Open an existing collection: load its metadata record and recompile
    /// any configured schemas. A missing record is reported as corruption.
    ///
    /// The returned handle owns its namespace in the model: hold at most
    /// one live `Collection` per name, as the data model prescribes —
    /// opening the same name twice hands out two handles whose models do
    /// not see each other's writes.
    pub fn get_collection(&mut self, name: &str) -> (r: Result<Collection, DbError>)
        ensures
            !store_names(old(self).store).contains(vstd::utf8::encode_utf8(name@)) ==> (r matches
                Err(e) && e is NotFound),
            ({
                let nb = vstd::utf8::encode_utf8(name@);
                match r {
                    Ok(c) => {
                        &&& store_names(old(self).store).contains(nb)
                        &&& c.entries().dom().contains(meta_key())
                        &&& parse_json(c.entries()[meta_key()]) matches Some(v) && meta_matches(
                            v,
                            c.meta(),
                        )
                        &&& c.meta().body_schema matches Some(s) ==> s.compiled && schema_compiles(
                            s.schema_json@,
                        )
                        &&& c.meta().dependencies_schema matches Some(s) ==> s.compiled
                            && schema_compiles(s.schema_json@)
                    },
                    Err(e) => match e {
                        DbError::NotFound => !store_names(old(self).store).contains(nb)
                            && *final(self) == *old(self),
                        DbError::DeserializationError(_) => store_names(old(self).store).contains(
                            nb,
                        ) && store_names(final(self).store) == store_names(old(self).store),
                        DbError::SchemaCompilationError(_) => store_names(
                            old(self).store,
                        ).contains(nb) && store_names(final(self).store) == store_names(
                            old(self).store,
                        ),
                        DbError::DatabaseError(_) => true,
                        _ => false,
                    },
                }
            }),
    {
        let nb = name.as_bytes_vec();
        if !self.name_present(&nb) {
            return Err(DbError::NotFound);
        }
        let tree = match self.store.open_tree(&nb) {
            Ok(t) => t,
            Err(e) => {
                return Err(DbError::DatabaseError(e));
            },
        };
        proof {
            assert(store_names(self.store) =~= store_names(old(self).store));
        }
        let mk = crate::keys::meta_key_exec();
        let meta_bytes = match tree.get(&mk) {
            Ok(Some(v)) => v,
            Ok(None) => {
                let mut msg = String::from_str("Collection ");
                msg.append(name);
                msg.append(" exists but metadata is missing. The collection might be corrupted.");
                return Err(DbError::DatabaseError(msg));
            },
            Err(e) => {
                return Err(DbError::DatabaseError(e));
            },
        };
        let mut metadata = match read_metadata(&meta_bytes) {
            Ok(md) => md,
            Err(e) => {
                return Err(e);
            },
        };
        match &mut metadata.body_schema {
            Some(s) => {
                let sb = s.schema_json.as_str().as_bytes_vec();
                if crate::parse::parse_json_exec(&sb).is_none() {
                    return Err(
                        DbError::DeserializationError("Invalid body schema JSON".to_owned()),
                    );
                }
                match s.compile() {
                    Ok(()) => (),
                    Err(e) => {
                        let mut msg = String::from_str("Failed to compile body schema: ");
                        msg.append(e.message().as_str());
                        return Err(DbError::SchemaCompilationError(msg));
                    },
                }
            },
            None => (),
        }
        match &mut metadata.dependencies_schema {
            Some(s) => {
                let sb = s.schema_json.as_str().as_bytes_vec();
                if crate::parse::parse_json_exec(&sb).is_none() {
                    return Err(
                        DbError::DeserializationError(
                            "Invalid dependencies schema JSON".to_owned(),
                        ),
                    );
                }
                match s.compile() {
                    Ok(()) => (),
                    Err(e) => {
                        let mut msg = String::from_str(
                            "Failed to compile dependencies schema: ",
                        );
                        msg.append(e.message().as_str());
                        return Err(DbError::SchemaCompilationError(msg));
                    },
                }
            },
            None => (),
        }
        Ok(Collection { tree, metadata })
    }

    /// Whether a collection with this name exists.
    pub fn collection_exists(&self, name: &str) -> (r: Result<bool, DbError>)
        ensures
            r matches Ok(b) && b == store_names(self.store).contains(
                vstd::utf8::encode_utf8(name@),
            ),
    {
        let nb = name.as_bytes_vec();
        Ok(self.name_present(&nb))
    }

    /// The names of all collections: every returned string names a held
    /// tree, and every held tree whose name is text appears.
    pub fn list_collections(&self) -> (r: Vec<String>)
        ensures
            forall|i: int|
                0 <= i < r@.len() ==> store_names(self.store).contains(
                    vstd::utf8::encode_utf8((#[trigger] r@[i])@),
                ),
            forall|n: Seq<u8>|
                #[trigger] store_names(self.store).contains(n) && (exists|t: Seq<char>|
                    vstd::utf8::encode_utf8(t) == n) ==> exists|i: int|
                    0 <= i < r@.len() && vstd::utf8::encode_utf8((#[trigger] r@[i])@) == n,
    {
        let names = self.store.names();
        let mut out: Vec<String> = Vec::new();
        let mut i: usize = 0;
        while i < names.len()
            invariant
                i <= names@.len(),
                forall|j: int|
                    0 <= j < names@.len() ==> store_names(self.store).contains(
                        (#[trigger] names@[j])@,
                    ),
                forall|j: int|
                    0 <= j < out@.len() ==> store_names(self.store).contains(
                        vstd::utf8::encode_utf8((#[trigger] out@[j])@),
                    ),
                forall|j: int|
                    0 <= j < i && (exists|t: Seq<char>|
                        vstd::utf8::encode_utf8(t) == (#[trigger] names@[j])@) ==> exists|k: int|
                        0 <= k < out@.len() && vstd::utf8::encode_utf8(out@[k]@) == names@[j]@,
            decreases names@.len() - i,
        {
            let nb = crate::parse::sub_vec(&names[i], 0, names[i].len());
            proof {
                assert(nb@ =~= names@[i as int]@);
            }
            let ghost old_out = out@;
            match crate::store::bytes_to_string(nb) {
                Ok(s) => {
                    out.push(s);
                    proof {
                        assert forall|j: int|
                            0 <= j < i + 1 && (exists|t: Seq<char>|
                                vstd::utf8::encode_utf8(t) == (#[trigger] names@[j])@) implies
                        exists|k: int|
                            0 <= k < out@.len() && vstd::utf8::encode_utf8(out@[k]@) == names@[
                        j]@ by {
                            if j < i {
                                let k = choose|k: int|
                                    0 <= k < old_out.len() && vstd::utf8::encode_utf8(old_out[k]@)
                                        == names@[j]@;
                                assert(out@[k] == old_out[k]);
                            } else {
                                assert(vstd::utf8::encode_utf8(out@[out@.len() - 1]@) == names@[
                                j]@);
                            }
                        }
                    }
                },
                Err(_) => (),
            }
            i = i + 1;
        }
        proof {
            assert forall|n: Seq<u8>|
                #[trigger] store_names(self.store).contains(n) && (exists|t: Seq<char>|
                    vstd::utf8::encode_utf8(t) == n) implies exists|k: int|
                0 <= k < out@.len() && vstd::utf8::encode_utf8((#[trigger] out@[k])@) == n by {
                let j = choose|j: int| 0 <= j < names@.len() && (#[trigger] names@[j])@ == n;
            }
        }
        out
    }

    /// Drop a whole collection and everything in it.
    pub fn drop_collection(&mut self, name: &str) -> (r: Result<(), DbError>)
        ensures
            ({
                let nb = vstd::utf8::encode_utf8(name@);
                match r {
                    Ok(()) => store_names(final(self).store) == store_names(
                        old(self).store,
                    ).remove(nb),
                    Err(e) => e is DatabaseError,
                }
            }),
    {
        let nb = name.as_bytes_vec();
        match self.store.drop_tree(&nb) {
            Ok(_) => Ok(()),
            Err(e) => Err(DbError::DatabaseError(e)),
        }
    }
}

/// Whether two optional schemas carry the same text and hash (compilation
/// state aside).
fn sch_text_eq(a: &Option<Schema>, b: &Option<Schema>) -> (r: bool)
    ensures
        r ==> match (*a, *b) {
            (None, None) => true,
            (Some(x), Some(y)) => x.schema_json@ == y.schema_json@ && x.schema_hash@
                == y.schema_hash@,
            _ => false,
        },
{
    match (a, b) {
        (None, None) => true,
        (Some(x), Some(y)) => {
            let sj = x.schema_json == y.schema_json;
            let sh = x.schema_hash == y.schema_hash;
            sj && sh
        },
        _ => false,
    }
}

/// Serialize a metadata record and check, by reading the bytes back, that
/// they denote exactly the given metadata. On success the parse fact is
/// part of the contract; a record that does not read back as written is a
/// serialization error and nothing is stored.
fn checked_metadata(md: &CollectionMetadata) -> (r: Result<Vec<u8>, DbError>)
    ensures
        r matches Ok(bytes) ==> (parse_json(bytes@) matches Some(v) && meta_matches(v, *md)),
        r matches Err(e) ==> e is SerializationError,
{
    let bytes = build_metadata(md.name.as_str(), &md.body_schema, &md.dependencies_schema, md.created_at);
    let back = match read_metadata(&bytes) {
        Ok(b) => b,
        Err(_) => {
            return Err(DbError::SerializationError("Failed to serialize metadata".to_owned()));
        },
    };
    let name_ok = back.name == md.name;
    let created_ok = back.created_at == md.created_at;
    let bs_ok = sch_text_eq(&back.body_schema, &md.body_schema);
    let ds_ok = sch_text_eq(&back.dependencies_schema, &md.dependencies_schema);
    if name_ok && created_ok && bs_ok && ds_ok {
        proof {
            let v = parse_json(bytes@)->0;
            let t = meta_of(v)->0;
            assert(vstd::utf8::encode_utf8(md.name@) == t.0);
            assert(sch_matches(t.1, md.body_schema)) by {
                match (back.body_schema, md.body_schema) {
                    (Some(x), Some(y)) => {
                        assert(vstd::utf8::encode_utf8(y.schema_json@) == (t.1->0).0);
                        assert(vstd::utf8::encode_utf8(y.schema_hash@) == (t.1->0).1);
                    },
                    _ => (),
                }
            }
            assert(sch_matches(t.2, md.dependencies_schema)) by {
                match (back.dependencies_schema, md.dependencies_schema) {
                    (Some(x), Some(y)) => {
                        assert(vstd::utf8::encode_utf8(y.schema_json@) == (t.2->0).0);
                        assert(vstd::utf8::encode_utf8(y.schema_hash@) == (t.2->0).1);
                    },
                    _ => (),
                }
            }
        }
        Ok(bytes)
    } else {
        Err(DbError::SerializationError("Failed to serialize metadata".to_owned()))
    }
}

/// A keyspace holding exactly the metadata record satisfies the storage
/// invariants.
proof fn lemma_meta_only_wf(m: crate::state::Entries)
    requires
        forall|k: Seq<u8>| #[trigger] m.dom().contains(k) <==> k == meta_key(),
    ensures
        wf(m),
{
    assert(m.dom().contains(meta_key()));
    assert forall|k: Seq<u8>| #[trigger] m.dom().contains(k) implies crate::state::key_shape_ok(
        k,
    ) by {
        assert(k == meta_key());
    }
    assert forall|k: Seq<u8>|
        #[trigger] m.dom().contains(k) && crate::keys::is_doc_key(k) implies crate::state::doc_ok(
        m,
        k,
    ) by {
        assert(k == meta_key());
        assert(meta_key().len() == 10);
    }
    assert forall|k: Seq<u8>|
        #[trigger] m.dom().contains(k) && crate::keys::is_marker_key(
        k,
    ) implies crate::state::marker_ok(m, k) by {
        assert(k == meta_key());
    }
    assert forall|k: Seq<u8>|
        #[trigger] m.dom().contains(k) && crate::keys::is_blob_key(k) implies crate::hash::digest32(
        m[k],
    ) == k by {
        assert(k == meta_key());
    }
}

/// The hex digest of some bytes, as a string.
fn hash_string(bytes: &Vec<u8>) -> (r: String)
    ensures
        vstd::utf8::encode_utf8(r@) == crate::hash::digest32(bytes@),
{
    let h = digest(bytes);
    proof {
        crate::hash::lemma_digest32_shape(bytes@);
        assert forall|i: int| 0 <= i < h@.len() implies (#[trigger] h@[i]) < 128 by {
            assert(crate::hash::is_hex_byte(h@[i]));
        }
    }
    ascii_string(h)
}

/// Serialize a metadata record: the optional schemas, the creation time,
/// and the name, as one canonical JSON object.
fn build_metadata(
    name: &str,
    body_schema: &Option<Schema>,
    deps_schema: &Option<Schema>,
    created_at: u64,
) -> Vec<u8> {
    let mut ms: Vec<(Vec<u8>, Json)> = Vec::new();
    match body_schema {
        Some(s) => {
            ms.push((key_body_schema(), schema_value(s)));
        },
        None => (),
    }
    let mut ca: Vec<u8> = Vec::new();
    crate::json::write_dec(created_at, &mut ca);
    ms.push((key_created_at(), Json::Num(ca)));
    match deps_schema {
        Some(s) => {
            ms.push((key_dependencies_schema(), schema_value(s)));
        },
        None => (),
    }
    ms.push((key_name(), Json::Str(name.as_bytes_vec())));
    let v = Json::Obj(ms);
    crate::json::to_bytes(&v)
}

/// The JSON value of one configured schema.
fn schema_value(s: &Schema) -> (r: Json)
{
    let mut ms: Vec<(Vec<u8>, Json)> = Vec::new();
    ms.push((key_schema_hash(), Json::Str(s.schema_hash.as_str().as_bytes_vec())));
    ms.push((key_schema_json(), Json::Str(s.schema_json.as_str().as_bytes_vec())));
    Json::Obj(ms)
}

/// Parse a metadata record into collection metadata; schemas come back
/// uncompiled.
fn read_metadata(bytes: &Vec<u8>) -> (r: Result<CollectionMetadata, DbError>)
    ensures
        match r {
            Ok(md) => parse_json(bytes@) matches Some(v) && meta_matches(v, md) && (
            md.body_schema matches Some(s) ==> !s.compiled) && (md.dependencies_schema matches Some(
                s,
            ) ==> !s.compiled),
            Err(e) => e is DeserializationError,
        },
{
    let v = match crate::parse::parse_json_exec(bytes) {
        Some(v) => v,
        None => {
            return Err(
                DbError::DeserializationError(
                    "Failed to deserialize collection metadata".to_owned(),
                ),
            );
        },
    };
    let ghost vm = v@;
    match v {
        Json::Obj(ms) => {
            proof {
                crate::json::lemma_jview_members_elems(ms@);
                assert(vm == JsonM::Obj(crate::json::jview_members(ms@)));
            }
            let name = match crate::json::obj_get_exec(&ms, &key_name()) {
                Some(Json::Str(nb)) => {
                    let nb2 = crate::parse::sub_vec(nb, 0, nb.len());
                    proof {
                        assert(nb2@ =~= nb@);
                    }
                    match crate::store::bytes_to_string(nb2) {
                        Ok(s) => s,
                        Err(_) => {
                            return Err(
                                DbError::DeserializationError(
                                    "Failed to deserialize collection metadata".to_owned(),
                                ),
                            );
                        },
                    }
                },
                _ => {
                    return Err(
                        DbError::DeserializationError(
                            "Failed to deserialize collection metadata".to_owned(),
                        ),
                    );
                },
            };
            let created_at = match crate::json::obj_get_exec(&ms, &key_created_at()) {
                Some(Json::Num(lex)) => {
                    match crate::json::read_dec(lex) {
                        Some(n) => n,
                        None => {
                            return Err(
                                DbError::DeserializationError(
                                    "Failed to deserialize collection metadata".to_owned(),
                                ),
                            );
                        },
                    }
                },
                _ => {
                    return Err(
                        DbError::DeserializationError(
                            "Failed to deserialize collection metadata".to_owned(),
                        ),
                    );
                },
            };
            let body_schema = match read_schema_field(&ms, &key_body_schema()) {
                Ok(s) => s,
                Err(e) => {
                    return Err(e);
                },
            };
            let deps_schema = match read_schema_field(&ms, &key_dependencies_schema()) {
                Ok(s) => s,
                Err(e) => {
                    return Err(e);
                },
            };
            Ok(
                CollectionMetadata {
                    name,
                    body_schema,
                    dependencies_schema: deps_schema,
                    created_at,
                },
            )
        },
        _ => Err(
            DbError::DeserializationError("Failed to deserialize collection metadata".to_owned()),
        ),
    }
}

/// Read one optional schema member of the metadata record.
fn read_schema_field(ms: &Vec<(Vec<u8>, Json)>, key: &Vec<u8>) -> (r: Result<
    Option<Schema>,
    DbError,
>)
    ensures
        match r {
            Ok(o) => match obj_get(crate::json::jview_members(ms@), key@) {
                None => o is None,
                Some(sv) => o matches Some(s) && !s.compiled && (sch_of(sv) matches Some(p)
                    && vstd::utf8::encode_utf8(s.schema_json@) == p.0 && vstd::utf8::encode_utf8(
                    s.schema_hash@,
                ) == p.1),
            },
            Err(e) => e is DeserializationError && obj_get(
                crate::json::jview_members(ms@),
                key@,
            ) is Some,
        },
{
    let sv = match crate::json::obj_get_exec(ms, key) {
        None => {
            return Ok(None);
        },
        Some(sv) => sv,
    };
    match sv {
        Json::Obj(sms) => {
            proof {
                crate::json::lemma_jview_members_elems(sms@);
            }
            let sj = match crate::json::obj_get_exec(sms, &key_schema_json()) {
                Some(Json::Str(b)) => {
                    let b2 = crate::parse::sub_vec(b, 0, b.len());
                    proof {
                        assert(b2@ =~= b@);
                    }
                    match crate::store::bytes_to_string(b2) {
                        Ok(s) => s,
                        Err(_) => {
                            return Err(
                                DbError::DeserializationError(
                                    "Failed to deserialize collection metadata".to_owned(),
                                ),
                            );
                        },
                    }
                },
                _ => {
                    return Err(
                        DbError::DeserializationError(
                            "Failed to deserialize collection metadata".to_owned(),
                        ),
                    );
                },
            };
            let sh = match crate::json::obj_get_exec(sms, &key_schema_hash()) {
                Some(Json::Str(b)) => {
                    let b2 = crate::parse::sub_vec(b, 0, b.len());
                    proof {
                        assert(b2@ =~= b@);
                    }
                    match crate::store::bytes_to_string(b2) {
                        Ok(s) => s,
                        Err(_) => {
                            return Err(
                                DbError::DeserializationError(
                                    "Failed to deserialize collection metadata".to_owned(),
                                ),
                            );
                        },
                    }
                },
                _ => {
                    return Err(
                        DbError::DeserializationError(
                            "Failed to deserialize collection metadata".to_owned(),
                        ),
                    );
                },
            };
            Ok(Some(Schema { schema_json: sj, schema_hash: sh, compiled: false }))
        },
        _ => Err(
            DbError::DeserializationError("Failed to deserialize collection metadata".to_owned()),
        ),
    }
}

/// Build the `body_schema` key bytes.
fn key_body_schema() -> (r: Vec<u8>)
    ensures
        r@ == k_body_schema(),
{
    let v: Vec<u8> = vec![98, 111, 100, 121, 95, 115, 99, 104, 101, 109, 97];
    proof {
        assert(v@ =~= k_body_schema());
    }
    v
}

/// Build the `created_at` key bytes.
fn key_created_at() -> (r: Vec<u8>)
    ensures
        r@ == k_created_at(),
{
    let v: Vec<u8> = vec![99, 114, 101, 97, 116, 101, 100, 95, 97, 116];
    proof {
        assert(v@ =~= k_created_at());
    }
    v
}

/// Build the `dependencies_schema` key bytes.
fn key_dependencies_schema() -> (r: Vec<u8>)
    ensures
        r@ == k_dependencies_schema(),
{
    let v: Vec<u8> = vec![
        100,
        101,
        112,
        101,
        110,
        100,
        101,
        110,
        99,
        105,
        101,
        115,
        95,
        115,
        99,
        104,
        101,
        109,
        97,
    ];
    proof {
        assert(v@ =~= k_dependencies_schema());
    }
    v
}

/// Build the `name` key bytes.
fn key_name() -> (r: Vec<u8>)
    ensures
        r@ == k_name(),
{
    let v: Vec<u8> = vec![110, 97, 109, 101];
    proof {
        assert(v@ =~= k_name());
    }
    v
}

/// Build the `schema_hash` key bytes.
fn key_schema_hash() -> (r: Vec<u8>)
    ensures
        r@ == k_schema_hash(),
{
    let v: Vec<u8> = vec![115, 99, 104, 101, 109, 97, 95, 104, 97, 115, 104];
    proof {
        assert(v@ =~= k_schema_hash());
    }
    v
}

/// Build the `schema_json` key bytes.
fn key_schema_json() -> (r: Vec<u8>)
    ensures
        r@ == k_schema_json(),
{
    let v: Vec<u8> = vec![115, 99, 104, 101, 109, 97, 95, 106, 115, 111, 110];
    proof {
        assert(v@ =~= k_schema_json());
    }
    v
}

} // verus!
