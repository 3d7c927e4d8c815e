use dbuf_storage::{Database, DbError, Schema};
use tempfile::tempdir;

fn open_db(path: &str) -> Database {
    Database::new(Some(path)).expect("Failed to open database")
}

// Create collection C; insert two documents sharing one dependency value;
// deleting the first must keep the shared blob alive for the second;
// deleting the second collects it.
#[test]
fn test_shared_dependency_lifecycle() {
    let temp_dir = tempdir().unwrap();
    let mut db = open_db(temp_dir.path().to_str().unwrap());
    let mut c = db.create_collection("c").unwrap();

    let id1 = c
        .insert_json(r#"{"body":{"a":1},"dependencies":{"k":1}}"#.to_string())
        .unwrap();
    let id2 = c
        .insert_json(r#"{"body":{"a":2},"dependencies":{"k":1}}"#.to_string())
        .unwrap();

    // exactly one dependency group holds both documents
    let sub = c.subcollection_json(r#"{"k":1}"#.to_string()).unwrap();
    let keys = sub.get_keys(&c).unwrap();
    assert_eq!(keys.len(), 2);
    assert!(keys.contains(&id1) && keys.contains(&id2));

    c.delete(&id1).unwrap();

    // the second document still reads back whole, dependencies included
    let got = c.get_json(&id2).unwrap();
    assert_eq!(got, r#"{"body":{"a":2},"dependencies":{"k":1}}"#);

    c.delete(&id2).unwrap();
    assert!(matches!(c.get_json(&id2), Err(DbError::NotFound)));
    assert_eq!(sub.get_keys(&c).unwrap().len(), 0);

    // the group can be repopulated afterwards
    let id3 = c
        .insert_json(r#"{"body":{"a":3},"dependencies":{"k":1}}"#.to_string())
        .unwrap();
    assert_eq!(
        c.get_json(&id3).unwrap(),
        r#"{"body":{"a":3},"dependencies":{"k":1}}"#
    );
}

// Structurally equal dependency values written with different key orders
// land in the same dependency group.
#[test]
fn test_dependency_key_order_canonical() {
    let temp_dir = tempdir().unwrap();
    let mut db = open_db(temp_dir.path().to_str().unwrap());
    let mut c = db.create_collection("c").unwrap();

    let id1 = c
        .insert_json(r#"{"body":1,"dependencies":{"x":1,"y":2}}"#.to_string())
        .unwrap();
    let id2 = c
        .insert_json(r#"{"dependencies":{"y":2,"x":1},"body":2}"#.to_string())
        .unwrap();

    let sub = c.subcollection_json(r#"{"y":2,"x":1}"#.to_string()).unwrap();
    let keys = sub.get_keys(&c).unwrap();
    assert_eq!(keys.len(), 2);
    assert!(keys.contains(&id1) && keys.contains(&id2));

    // both read back in one canonical form
    assert_eq!(
        c.get_json(&id1).unwrap(),
        r#"{"body":1,"dependencies":{"x":1,"y":2}}"#
    );
    assert_eq!(
        c.get_json(&id2).unwrap(),
        r#"{"body":2,"dependencies":{"x":1,"y":2}}"#
    );
}

// An update carrying the same body and the same dependencies (under any
// key order) is a no-op: the document reads back unchanged.
#[test]
fn test_noop_update() {
    let temp_dir = tempdir().unwrap();
    let mut db = open_db(temp_dir.path().to_str().unwrap());
    let mut c = db.create_collection("c").unwrap();

    let id = c
        .insert_json(r#"{"body":{"m":5,"n":6},"dependencies":{"g":true}}"#.to_string())
        .unwrap();
    let before = c.get_json(&id).unwrap();

    c.update_json(
        &id,
        r#"{"dependencies":{"g":true},"body":{"n":6,"m":5}}"#.to_string(),
    )
    .unwrap();

    let after = c.get_json(&id).unwrap();
    assert_eq!(before, after);
}

// A subcollection bound to one dependency value must not see documents of
// another group, even though the collection reads both.
#[test]
fn test_membership_isolation() {
    let temp_dir = tempdir().unwrap();
    let mut db = open_db(temp_dir.path().to_str().unwrap());
    let mut c = db.create_collection("c").unwrap();

    let sub1 = c.subcollection_json(r#"{"d":1}"#.to_string()).unwrap();
    let sub2 = c.subcollection_json(r#"{"d":2}"#.to_string()).unwrap();
    let id1 = sub1.insert_json(&mut c, r#"{"v":1}"#.to_string()).unwrap();
    let id2 = sub2.insert_json(&mut c, r#"{"v":2}"#.to_string()).unwrap();

    assert!(c.get_json(&id1).is_ok());
    assert!(c.get_json(&id2).is_ok());
    assert!(matches!(sub1.get_json(&c, &id2), Err(DbError::NotFound)));
    assert!(matches!(sub2.get_json(&c, &id1), Err(DbError::NotFound)));
    assert!(matches!(
        sub1.update_json(&mut c, &id2, r#"{"v":9}"#.to_string()),
        Err(DbError::NotFound)
    ));
    assert!(matches!(sub1.delete(&mut c, &id2), Err(DbError::NotFound)));
}

// Reassigning a document's dependencies moves its membership marker from
// the old group to the new one.
#[test]
fn test_update_moves_group() {
    let temp_dir = tempdir().unwrap();
    let mut db = open_db(temp_dir.path().to_str().unwrap());
    let mut c = db.create_collection("c").unwrap();

    let sub1 = c.subcollection_json(r#"{"d":1}"#.to_string()).unwrap();
    let sub2 = c.subcollection_json(r#"{"d":2}"#.to_string()).unwrap();
    let id = sub1.insert_json(&mut c, r#"{"v":1}"#.to_string()).unwrap();
    assert_eq!(sub1.get_keys(&c).unwrap(), vec![id.clone()]);
    assert_eq!(sub2.get_keys(&c).unwrap().len(), 0);

    c.update_json(&id, r#"{"body":{"v":1},"dependencies":{"d":2}}"#.to_string())
        .unwrap();

    assert_eq!(sub1.get_keys(&c).unwrap().len(), 0);
    assert_eq!(sub2.get_keys(&c).unwrap(), vec![id.clone()]);
    assert_eq!(
        c.get_json(&id).unwrap(),
        r#"{"body":{"v":1},"dependencies":{"d":2}}"#
    );
}

// The schema gate: a body schema requiring {name: string, age: integer}
// with no extra members rejects a nonconforming body and accepts a
// conforming one.
#[test]
fn test_schema_gate() {
    let temp_dir = tempdir().unwrap();
    let mut db = open_db(temp_dir.path().to_str().unwrap());
    let body_schema = r#"{"type":"object","properties":{"name":{"type":"string"},"age":{"type":"integer"}},"required":["name","age"],"additionalProperties":false}"#;
    let deps_schema = r#"{"type":"object"}"#;
    let mut c = db
        .create_collection_with_schema_json("gated", body_schema, deps_schema)
        .unwrap();

    let bad = c.insert_json(r#"{"body":{"age":"thirty"},"dependencies":{}}"#.to_string());
    assert!(matches!(bad, Err(DbError::SchemaValidationError(_))));

    let good = c.insert_json(r#"{"body":{"name":"X","age":1},"dependencies":{}}"#.to_string());
    assert!(good.is_ok());
}

// Validating through a schema that has not been compiled is an error of
// its own kind.
#[test]
fn test_uncompiled_schema_error() {
    let s = Schema {
        schema_json: r#"{"type":"object"}"#.to_string(),
        schema_hash: String::new(),
        compiled: false,
    };
    let data = "{}".as_bytes().to_vec();
    assert!(matches!(
        s.validate_data(&data),
        Err(DbError::SchemaError(_))
    ));

    let mut s2 = Schema {
        schema_json: r#"{"type":"object"}"#.to_string(),
        schema_hash: String::new(),
        compiled: false,
    };
    s2.compile().unwrap();
    assert!(s2.validate_data(&data).is_ok());
    let bad = "[]".as_bytes().to_vec();
    assert!(matches!(
        s2.validate_data(&bad),
        Err(DbError::SchemaValidationError(_))
    ));
}

// String escapes decode on the way in and re-encode canonically on the
// way out.
#[test]
fn test_string_escapes() {
    let temp_dir = tempdir().unwrap();
    let mut db = open_db(temp_dir.path().to_str().unwrap());
    let mut c = db.create_collection("c").unwrap();

    // \u0041 is 'A'; a surrogate pair decodes to one scalar; control
    // characters stay escaped.
    let id = c
        .insert_json(
            "{\"body\":\"\\u0041 \\uD83D\\uDE00 \\n \\\" é\",\"dependencies\":{}}".to_string(),
        )
        .unwrap();
    let got = c.get_json(&id).unwrap();
    assert_eq!(got, "{\"body\":\"A 😀 \\n \\\" é\",\"dependencies\":{}}");

    // a lone surrogate is rejected
    let bad = c.insert_json("{\"body\":\"\\uD800\",\"dependencies\":{}}".to_string());
    assert!(matches!(bad, Err(DbError::DeserializationError(_))));
}

// Number lexemes are kept verbatim; malformed numbers are rejected.
#[test]
fn test_number_lexemes() {
    let temp_dir = tempdir().unwrap();
    let mut db = open_db(temp_dir.path().to_str().unwrap());
    let mut c = db.create_collection("c").unwrap();

    let id = c
        .insert_json(r#"{"body":[0,-1,2.5,-0.5e3,1e2,42],"dependencies":{}}"#.to_string())
        .unwrap();
    assert_eq!(
        c.get_json(&id).unwrap(),
        r#"{"body":[0,-1,2.5,-0.5e3,1e2,42],"dependencies":{}}"#
    );

    for bad in ["01", "-", "1.", "1e", "+1", ".5"] {
        let doc = format!("{{\"body\":{},\"dependencies\":{{}}}}", bad);
        assert!(
            matches!(c.insert_json(doc), Err(DbError::DeserializationError(_))),
            "{} should be rejected",
            bad
        );
    }
}

// A repeated object key keeps its last value, as the reference JSON
// parser does.
#[test]
fn test_duplicate_keys_last_wins() {
    let temp_dir = tempdir().unwrap();
    let mut db = open_db(temp_dir.path().to_str().unwrap());
    let mut c = db.create_collection("c").unwrap();

    let id = c
        .insert_json(r#"{"body":{"a":1,"a":2},"dependencies":{}}"#.to_string())
        .unwrap();
    assert_eq!(
        c.get_json(&id).unwrap(),
        r#"{"body":{"a":2},"dependencies":{}}"#
    );
}

// Generated ids come from the fixed 16-character alphanumeric alphabet,
// which keeps marker keys unambiguous.
#[test]
fn test_id_shape() {
    let temp_dir = tempdir().unwrap();
    let mut db = open_db(temp_dir.path().to_str().unwrap());
    let mut c = db.create_collection("c").unwrap();

    let id = c
        .insert_json(r#"{"body":0,"dependencies":0}"#.to_string())
        .unwrap();
    assert_eq!(id.len(), 16);
    assert!(id.chars().all(|ch| ch.is_ascii_alphanumeric()));
}

// Collection metadata carries a clock reading and survives reopening.
#[test]
fn test_metadata_fields() {
    let temp_dir = tempdir().unwrap();
    let db_path = temp_dir.path().to_str().unwrap();
    {
        let mut db = open_db(db_path);
        let c = db.create_collection("meta").unwrap();
        assert!(c.get_created_at() > 0);
        assert!(!c.has_schema());
        assert!(c.get_body_schema_json().is_none());
        assert!(c.get_dependencies_schema_json().is_none());
    }
    let mut db = open_db(db_path);
    let c = db.get_collection("meta").unwrap();
    assert_eq!(c.get_name(), "meta");
    assert!(c.get_created_at() > 0);
    assert!(!c.has_schema());
}

// Whole documents round-trip exactly for every JSON value kind.
#[test]
fn test_round_trip_value_kinds() {
    let temp_dir = tempdir().unwrap();
    let mut db = open_db(temp_dir.path().to_str().unwrap());
    let mut c = db.create_collection("c").unwrap();

    for doc in [
        r#"{"body":null,"dependencies":null}"#,
        r#"{"body":true,"dependencies":false}"#,
        r#"{"body":"s","dependencies":""}"#,
        r#"{"body":[],"dependencies":[[1],[2,[3]]]}"#,
        r#"{"body":{},"dependencies":{"a":{"b":{"c":[null]}}}}"#,
    ] {
        let id = c.insert_json(doc.to_string()).unwrap();
        assert_eq!(c.get_json(&id).unwrap(), doc);
    }

    // whitespace and key order normalize to the canonical form
    let id = c
        .insert_json(" { \"dependencies\" : {} , \"body\" : [ 1 , 2 ] } ".to_string())
        .unwrap();
    assert_eq!(
        c.get_json(&id).unwrap(),
        r#"{"body":[1,2],"dependencies":{}}"#
    );
}

// A dependency value whose canonical bytes are not valid JSON (a malformed
// number lexeme through the value-level insert) is rejected before anything
// is written, so no unreadable blob can ever be stored.
#[test]
fn test_malformed_dependencies_rejected() {
    let temp_dir = tempdir().unwrap();
    let mut db = open_db(temp_dir.path().to_str().unwrap());
    let mut c = db.create_collection("c").unwrap();

    let body = dbuf_storage::json::Json::Null;
    let deps = dbuf_storage::json::Json::Num("nonsense".as_bytes().to_vec());
    let bad = c.insert_doc(&body, &deps);
    assert!(matches!(bad, Err(DbError::SerializationError(_))));

    // a well-formed document on the same collection still reads back whole
    let id2 = c
        .insert_json(r#"{"body":null,"dependencies":7}"#.to_string())
        .unwrap();
    assert_eq!(c.get_json(&id2).unwrap(), r#"{"body":null,"dependencies":7}"#);
}
