use dbuf_storage::{Database, DbError, Schema};
use tempfile::tempdir;

fn open_db(path: &str) -> Database {
    Database::new(Some(path)).expect("Failed to open database")
}

#[test]
fn test_collection_management() {
    let temp_dir = tempdir().unwrap();
    let db_path = temp_dir.path().to_str().unwrap();
    let mut db = open_db(db_path);

    let coll1 = db
        .create_collection("test_collection")
        .expect("Failed to create collection");
    assert_eq!(coll1.get_name(), "test_collection");

    assert!(db.collection_exists("test_collection").unwrap());
    assert!(!db.collection_exists("nonexistent").unwrap());

    let collections = db.list_collections();
    assert!(collections.contains(&"test_collection".to_string()));

    let existing = db
        .get_collection("test_collection")
        .expect("Failed to get existing collection");
    assert_eq!(existing.get_name(), "test_collection");

    let nonexistent = db.get_collection("nonexistent");
    assert!(matches!(nonexistent, Err(DbError::NotFound)));

    db.drop_collection("test_collection")
        .expect("Failed to drop collection");
    assert!(!db.collection_exists("test_collection").unwrap());
}

#[test]
fn test_create_collection_with_schema() {
    let temp_dir = tempdir().unwrap();
    let db_path = temp_dir.path().to_str().unwrap();
    let mut db = open_db(db_path);

    let gen_body_schema = r#"{"title":"Body","type":"object"}"#;
    let gen_deps_schema =
        r#"{"title":"Dependencies","type":"object","properties":{"a":{"type":"integer"}},"required":["a"]}"#;
    let coll = db
        .create_collection_with_schema_json(
            "test_schema_collection",
            gen_body_schema,
            gen_deps_schema,
        )
        .expect("Failed to create collection with schema");

    assert!(coll.has_schema());
    assert!(coll.get_body_schema_json().is_some());
    assert!(coll.get_dependencies_schema_json().is_some());

    let body_schema = r#"{"type":"object","properties":{},"additionalProperties":false}"#;
    let deps_schema = r#"{"type":"object","properties":{"a":{"type":"integer"}},"required":["a"],"additionalProperties":false}"#;

    let coll_json = db
        .create_collection_with_schema_json("test_json_schema", body_schema, deps_schema)
        .expect("Failed to create collection with JSON schema");

    assert!(coll_json.has_schema());
    assert_eq!(coll_json.get_body_schema_json().unwrap(), body_schema);
    assert_eq!(
        coll_json.get_dependencies_schema_json().unwrap(),
        deps_schema
    );

    let duplicate = db.create_collection("test_schema_collection");
    assert!(matches!(duplicate, Err(DbError::AlreadyExists(_))));
}

#[test]
fn test_basic_crud_operations() {
    let temp_dir = tempdir().unwrap();
    let db_path = temp_dir.path().to_str().unwrap();
    let mut db = open_db(db_path);
    let mut collection = db
        .create_collection("test_crud")
        .expect("Failed to create collection");

    let sum = r#"{"body":{},"dependencies":{"a":42}}"#;
    let id = collection
        .insert_json(sum.to_string())
        .expect("Failed to insert item");
    assert!(!id.is_empty());

    let retrieved = collection.get_json(&id).expect("Failed to get item");
    assert_eq!(retrieved, sum);

    let updated_sum = r#"{"body":{},"dependencies":{"a":100}}"#;
    collection
        .update_json(&id, updated_sum.to_string())
        .expect("Failed to update item");

    let retrieved_after_update = collection.get_json(&id).expect("Failed to get updated item");
    assert_eq!(retrieved_after_update, updated_sum);
    assert_ne!(retrieved, retrieved_after_update);

    collection.delete(&id).expect("Failed to delete item");

    let get_after_delete = collection.get_json(&id);
    assert!(matches!(get_after_delete, Err(DbError::NotFound)));
}

#[test]
fn test_collection_sum() {
    let temp_dir = tempdir().unwrap();
    let db_path = temp_dir.path().to_str().unwrap();
    let mut db = open_db(db_path);
    let mut collection = db
        .create_collection("test_complex")
        .expect("Failed to create collection");

    // foo with dependencies {a: 10, b: 20}; its body holds a sum whose
    // dependency is -a + b = 10.
    let foo =
        r#"{"body":{"sum":{"body":{},"dependencies":{"a":10}}},"dependencies":{"a":10,"b":20}}"#;
    let id = collection
        .insert_json(foo.to_string())
        .expect("Failed to insert foo");

    let retrieved = collection.get_json(&id).expect("Failed to get foo");
    let value: serde_json::Value = serde_json::from_str(&retrieved).unwrap();
    assert!(value["dependencies"]["a"] == 10);
    assert!(value["dependencies"]["b"] == 20);
    assert!(value["body"]["sum"]["dependencies"]["a"] == 10); // -a + b = -10 + 20 = 10

    let zero = r#"{"body":"Zero","dependencies":{}}"#;
    let one = r#"{"body":{"Suc":{"pred":"Zero"}},"dependencies":{}}"#;
    let two = r#"{"body":{"Suc":{"pred":{"Suc":{"pred":"Zero"}}}},"dependencies":{}}"#;

    let zero_id = collection
        .insert_json(zero.to_string())
        .expect("Failed to insert zero");
    let one_id = collection
        .insert_json(one.to_string())
        .expect("Failed to insert one");
    let two_id = collection
        .insert_json(two.to_string())
        .expect("Failed to insert two");

    let retrieved_zero = collection.get_json(&zero_id).expect("Failed to get zero");
    let retrieved_one = collection.get_json(&one_id).expect("Failed to get one");
    let retrieved_two = collection.get_json(&two_id).expect("Failed to get two");

    let vz: serde_json::Value = serde_json::from_str(&retrieved_zero).unwrap();
    if vz["body"] != "Zero" {
        panic!("Expected Zero");
    }
    let vo: serde_json::Value = serde_json::from_str(&retrieved_one).unwrap();
    if vo["body"]["Suc"]["pred"] != "Zero" {
        panic!("Expected Suc(Zero)");
    }
    let vt: serde_json::Value = serde_json::from_str(&retrieved_two).unwrap();
    if vt["body"]["Suc"]["pred"]["Suc"]["pred"] != "Zero" {
        panic!("Expected Suc(Suc(Zero))");
    }
}

#[test]
fn test_json_operations() {
    let temp_dir = tempdir().unwrap();
    let db_path = temp_dir.path().to_str().unwrap();
    let mut db = open_db(db_path);
    let mut collection = db
        .create_collection("test_json")
        .expect("Failed to create collection");

    let json_data = r#"{"body":{"a":1,"b":2,"c":3},"dependencies":{}}"#;
    let id = collection
        .insert_json(json_data.to_string())
        .expect("Failed to insert JSON");

    let retrieved_json = collection.get_json(&id).expect("Failed to get JSON");
    let retrieved_value: serde_json::Value = serde_json::from_str(&retrieved_json).unwrap();

    assert!(retrieved_value["body"]["a"] == 1);
    assert!(retrieved_value["body"]["b"] == 2);
    assert!(retrieved_value["body"]["c"] == 3);

    let updated_json = r#"{"body":{"a":10,"b":20,"c":30},"dependencies":{}}"#;
    collection
        .update_json(&id, updated_json.to_string())
        .expect("Failed to update JSON");

    let retrieved_after_update = collection
        .get_json(&id)
        .expect("Failed to get JSON after update");
    let updated_value: serde_json::Value = serde_json::from_str(&retrieved_after_update).unwrap();

    assert!(updated_value["body"]["a"] == 10);
    assert!(updated_value["body"]["b"] == 20);
    assert!(updated_value["body"]["c"] == 30);
}

#[test]
fn test_error_handling() {
    let temp_dir = tempdir().unwrap();
    let db_path = temp_dir.path().to_str().unwrap();
    let mut db = open_db(db_path);
    let mut collection = db
        .create_collection("test_errors")
        .expect("Failed to create collection");

    let nonexistent = collection.get_json("nonexistent_id");
    assert!(matches!(nonexistent, Err(DbError::NotFound)));

    let sum = r#"{"body":{},"dependencies":{"a":42}}"#;
    let update_nonexistent = collection.update_json("nonexistent_id", sum.to_string());
    assert!(matches!(update_nonexistent, Err(DbError::NotFound)));

    let delete_nonexistent = collection.delete("nonexistent_id");
    assert!(matches!(delete_nonexistent, Err(DbError::NotFound)));

    let invalid_json = "{invalid json}";
    let insert_invalid = collection.insert_json(invalid_json.to_string());
    assert!(matches!(
        insert_invalid,
        Err(DbError::DeserializationError(_))
    ));

    let missing_fields = r#"{"only_body":{}}"#;
    let insert_invalid_struct = collection.insert_json(missing_fields.to_string());
    assert!(matches!(
        insert_invalid_struct,
        Err(DbError::DeserializationError(_))
    ));
}

#[test]
fn test_subcollection_operations() {
    let temp_dir = tempdir().unwrap();
    let db_path = temp_dir.path().to_str().unwrap();
    let mut db = open_db(db_path);
    let mut collection = db
        .create_collection("test_subcollection")
        .expect("Failed to create collection");

    let subcollection42 = collection
        .subcollection_json(r#"{"a":42}"#.to_string())
        .expect("Failed to create subcollection42");
    let subcollection100 = collection
        .subcollection_json(r#"{"a":100}"#.to_string())
        .expect("Failed to create subcollection100");

    let body = r#"{}"#;

    let id1 = subcollection42
        .insert_json(&mut collection, body.to_string())
        .expect("Failed to insert body1");
    let id2 = subcollection100
        .insert_json(&mut collection, body.to_string())
        .expect("Failed to insert body2");

    let retrieved1 = subcollection42
        .get_json(&collection, &id1)
        .expect("Failed to get body1");
    let retrieved2 = subcollection100
        .get_json(&collection, &id2)
        .expect("Failed to get body2");

    assert_eq!(retrieved1, body);
    assert_eq!(retrieved2, body);

    let wrong_result = subcollection42.get_json(&collection, &id2);
    assert!(matches!(wrong_result, Err(DbError::NotFound)));

    let full_message1 = collection.get_json(&id1).expect("Failed to get full message1");
    let full_message2 = collection.get_json(&id2).expect("Failed to get full message2");

    assert_eq!(full_message1, r#"{"body":{},"dependencies":{"a":42}}"#);
    assert_eq!(full_message2, r#"{"body":{},"dependencies":{"a":100}}"#);

    let keys42 = subcollection42
        .get_keys(&collection)
        .expect("Failed to get keys from subcollection42");
    let keys100 = subcollection100
        .get_keys(&collection)
        .expect("Failed to get keys from subcollection100");

    assert_eq!(keys42.len(), 1);
    assert_eq!(keys100.len(), 1);
    assert!(keys42.contains(&id1));
    assert!(keys100.contains(&id2));

    subcollection42
        .update_json(&mut collection, &id1, body.to_string())
        .expect("Failed to update in subcollection");

    subcollection42
        .delete(&mut collection, &id1)
        .expect("Failed to delete from subcollection");

    let subcol_result = subcollection42.get_json(&collection, &id1);
    let col_result = collection.get_json(&id1);

    assert!(matches!(subcol_result, Err(DbError::NotFound)));
    assert!(matches!(col_result, Err(DbError::NotFound)));
}

#[test]
fn test_subcollection_json_operations() {
    let temp_dir = tempdir().unwrap();
    let db_path = temp_dir.path().to_str().unwrap();
    let mut db = open_db(db_path);
    let mut collection = db
        .create_collection("test_subcollection_json")
        .expect("Failed to create collection");

    let deps_json = r#"{"a":42}"#;
    let subcollection = collection
        .subcollection_json(deps_json.to_string())
        .expect("Failed to create subcollection from JSON");

    let body_json = r#"{}"#;
    let id = subcollection
        .insert_json(&mut collection, body_json.to_string())
        .expect("Failed to insert body JSON");

    let retrieved_json = subcollection
        .get_json(&collection, &id)
        .expect("Failed to get body JSON");
    assert_eq!(retrieved_json, "{}");

    subcollection
        .update_json(&mut collection, &id, body_json.to_string())
        .expect("Failed to update body JSON");

    subcollection
        .delete_json(&mut collection, &id)
        .expect("Failed to delete body JSON");

    let result = subcollection.get_json(&collection, &id);
    assert!(matches!(result, Err(DbError::NotFound)));
}

#[test]
fn test_multiple_items_in_subcollection() {
    let temp_dir = tempdir().unwrap();
    let db_path = temp_dir.path().to_str().unwrap();
    let mut db = open_db(db_path);
    let mut collection = db
        .create_collection("test_multi_subcollection")
        .expect("Failed to create collection");

    let users_subcollection = collection
        .subcollection_json("{}".to_string())
        .expect("Failed to create users subcollection");

    let user1_body = r#"{"a":1,"b":2,"c":3}"#;
    let user2_body = r#"{"a":4,"b":5,"c":6}"#;
    let user3_body = r#"{"a":7,"b":8,"c":9}"#;

    let id1 = users_subcollection
        .insert_json(&mut collection, user1_body.to_string())
        .expect("Failed to insert user1");
    let id2 = users_subcollection
        .insert_json(&mut collection, user2_body.to_string())
        .expect("Failed to insert user2");
    let id3 = users_subcollection
        .insert_json(&mut collection, user3_body.to_string())
        .expect("Failed to insert user3");

    let retrieved1 = users_subcollection
        .get_json(&collection, &id1)
        .expect("Failed to get user1");
    let retrieved2 = users_subcollection
        .get_json(&collection, &id2)
        .expect("Failed to get user2");
    let retrieved3 = users_subcollection
        .get_json(&collection, &id3)
        .expect("Failed to get user3");

    assert_eq!(retrieved1, user1_body);
    assert_eq!(retrieved2, user2_body);
    assert_eq!(retrieved3, user3_body);

    let keys = users_subcollection
        .get_keys(&collection)
        .expect("Failed to get keys");
    assert_eq!(keys.len(), 3);
    assert!(keys.contains(&id1) && keys.contains(&id2) && keys.contains(&id3));

    let updated_body = r#"{"a":10,"b":11,"c":12}"#;
    users_subcollection
        .update_json(&mut collection, &id1, updated_body.to_string())
        .expect("Failed to update user1");

    let updated_retrieved = users_subcollection
        .get_json(&collection, &id1)
        .expect("Failed to get updated user");
    assert_eq!(updated_retrieved, updated_body);

    users_subcollection
        .delete(&mut collection, &id2)
        .expect("Failed to delete user2");

    let delete_result = users_subcollection.get_json(&collection, &id2);
    assert!(matches!(delete_result, Err(DbError::NotFound)));

    let updated_keys = users_subcollection
        .get_keys(&collection)
        .expect("Failed to get updated keys");
    assert_eq!(updated_keys.len(), 2);
    assert!(updated_keys.contains(&id1) && updated_keys.contains(&id3));
    assert!(!updated_keys.contains(&id2));
}

#[test]
fn test_schema_validation() {
    let temp_dir = tempdir().unwrap();
    let db_path = temp_dir.path().to_str().unwrap();
    let mut db = open_db(db_path);

    let body_schema = r#"{
        "type": "object",
        "properties": {
            "name": { "type": "string" },
            "age": { "type": "integer", "minimum": 0 }
        },
        "required": ["name", "age"],
        "additionalProperties": false
    }"#;

    let deps_schema = r#"{
        "type": "object",
        "properties": {
            "id": { "type": "string" }
        },
        "required": ["id"],
        "additionalProperties": false
    }"#;

    let mut collection = db
        .create_collection_with_schema_json("test_schema_validation", body_schema, deps_schema)
        .expect("Failed to create collection with schema");

    let valid_json = r#"{
        "body": { "name": "John", "age": 30 },
        "dependencies": { "id": "123" }
    }"#;

    let id = collection
        .insert_json(valid_json.to_string())
        .expect("Failed to insert valid data");

    let invalid_body_type = r#"{
        "body": { "name": "John", "age": "thirty" },
        "dependencies": { "id": "123" }
    }"#;

    let result = collection.insert_json(invalid_body_type.to_string());
    assert!(matches!(result, Err(DbError::SchemaValidationError(_))));

    let invalid_body_missing = r#"{
        "body": { "age": 30 },
        "dependencies": { "id": "123" }
    }"#;

    let result = collection.insert_json(invalid_body_missing.to_string());
    assert!(matches!(result, Err(DbError::SchemaValidationError(_))));

    let invalid_body_additional = r#"{
        "body": { "name": "John", "age": 30, "extra": true },
        "dependencies": { "id": "123" }
    }"#;

    let result = collection.insert_json(invalid_body_additional.to_string());
    assert!(matches!(result, Err(DbError::SchemaValidationError(_))));

    let invalid_deps = r#"{
        "body": { "name": "John", "age": 30 },
        "dependencies": { "id": 123 }
    }"#;

    let result = collection.insert_json(invalid_deps.to_string());
    assert!(matches!(result, Err(DbError::SchemaValidationError(_))));

    let update_invalid = r#"{
        "body": { "name": "John", "age": -5 },
        "dependencies": { "id": "123" }
    }"#;

    let result = collection.update_json(&id, update_invalid.to_string());
    assert!(matches!(result, Err(DbError::SchemaValidationError(_))));
}

#[test]
fn test_schema_compilation_errors() {
    let temp_dir = tempdir().unwrap();
    let db_path = temp_dir.path().to_str().unwrap();
    let mut db = open_db(db_path);

    let invalid_schema = r#"{ "type": "object", "properties": { unclosed_object }"#;
    let valid_schema = r#"{ "type": "object" }"#;

    let result =
        db.create_collection_with_schema_json("test_invalid_schema", invalid_schema, valid_schema);

    assert!(matches!(result, Err(DbError::DeserializationError(_))));

    let invalid_schema_semantic = r#"{ "type": "unknown_type" }"#;

    let result = db.create_collection_with_schema_json(
        "test_invalid_schema_semantic",
        invalid_schema_semantic,
        valid_schema,
    );

    assert!(matches!(result, Err(DbError::SchemaCompilationError(_))));
}

#[test]
fn test_sum_db_operations() {
    let temp_dir = tempdir().unwrap();
    let db_path = temp_dir.path().to_str().unwrap();
    let mut db = open_db(db_path);
    let mut collection = db
        .create_collection("sum")
        .expect("Failed to create collection");

    let sum = r#"{"body":{},"dependencies":{"a":42}}"#;
    let id = collection.insert_json(sum.to_string()).unwrap();

    let retrieved = collection.get_json(&id).unwrap();
    let value: serde_json::Value = serde_json::from_str(&retrieved).unwrap();
    assert!(value["dependencies"]["a"] == 42);
    assert_eq!(retrieved, sum);

    let updated_sum = r#"{"body":{},"dependencies":{"a":100}}"#;
    collection.update_json(&id, updated_sum.to_string()).unwrap();

    let retrieved_updated = collection.get_json(&id).unwrap();
    let value: serde_json::Value = serde_json::from_str(&retrieved_updated).unwrap();
    assert!(value["dependencies"]["a"] == 100);
    let retrieved_updated = collection.get_json(&id).unwrap();
    assert_eq!(retrieved_updated, updated_sum);
}

#[test]
fn test_foo_db_operations() {
    let temp_dir = tempdir().unwrap();
    let db_path = temp_dir.path().to_str().unwrap();
    let mut db = open_db(db_path);
    let mut collection = db
        .create_collection("foo")
        .expect("Failed to create collection");

    let foo =
        r#"{"body":{"sum":{"body":{},"dependencies":{"a":10}}},"dependencies":{"a":10,"b":20}}"#;
    let id = collection.insert_json(foo.to_string()).unwrap();

    let retrieved = collection.get_json(&id).unwrap();
    let value: serde_json::Value = serde_json::from_str(&retrieved).unwrap();
    assert!(value["dependencies"]["a"] == 10);
    assert!(value["dependencies"]["b"] == 20);
    assert_eq!(retrieved, foo);
    assert!(value["body"]["sum"]["dependencies"]["a"] == 10); // -a + b = -10 + 20 = 10

    let updated_foo =
        r#"{"body":{"sum":{"body":{},"dependencies":{"a":20}}},"dependencies":{"a":30,"b":50}}"#;
    collection.update_json(&id, updated_foo.to_string()).unwrap();

    let retrieved_updated = collection.get_json(&id).unwrap();
    let value: serde_json::Value = serde_json::from_str(&retrieved_updated).unwrap();
    assert!(value["dependencies"]["a"] == 30);
    assert!(value["dependencies"]["b"] == 50);
    assert!(value["body"]["sum"]["dependencies"]["a"] == 20); // -a + b = -30 + 50 = 20
    assert_eq!(retrieved_updated, updated_foo);
}

#[test]
fn test_user_db_operations() {
    let temp_dir = tempdir().unwrap();
    let db_path = temp_dir.path().to_str().unwrap();
    let mut db = open_db(db_path);
    let mut collection = db
        .create_collection("user")
        .expect("Failed to create collection");

    let user = r#"{"body":{"a":1,"b":2,"c":3},"dependencies":{}}"#;
    let id = collection.insert_json(user.to_string()).unwrap();

    let retrieved = collection.get_json(&id).unwrap();
    let value: serde_json::Value = serde_json::from_str(&retrieved).unwrap();
    assert!(value["body"]["a"] == 1);
    assert!(value["body"]["b"] == 2);
    assert!(value["body"]["c"] == 3);
    assert_eq!(retrieved, user);

    let updated_user = r#"{"body":{"a":4,"b":5,"c":6},"dependencies":{}}"#;
    collection.update_json(&id, updated_user.to_string()).unwrap();

    let retrieved_updated = collection.get_json(&id).unwrap();
    let value: serde_json::Value = serde_json::from_str(&retrieved_updated).unwrap();
    assert!(value["body"]["a"] == 4);
    assert!(value["body"]["b"] == 5);
    assert!(value["body"]["c"] == 6);
    assert_eq!(retrieved_updated, updated_user);
}

#[test]
fn test_nat_db_operations() {
    let temp_dir = tempdir().unwrap();
    let db_path = temp_dir.path().to_str().unwrap();
    let mut db = open_db(db_path);
    let mut collection = db
        .create_collection("nat")
        .expect("Failed to create collection");

    let zero = r#"{"body":"Zero","dependencies":{}}"#;
    let one = r#"{"body":{"Suc":{"pred":"Zero"}},"dependencies":{}}"#;
    let two = r#"{"body":{"Suc":{"pred":{"Suc":{"pred":"Zero"}}}},"dependencies":{}}"#;

    let zero_id = collection.insert_json(zero.to_string()).unwrap();
    let one_id = collection.insert_json(one.to_string()).unwrap();
    let two_id = collection.insert_json(two.to_string()).unwrap();

    let retrieved_zero = collection.get_json(&zero_id).unwrap();
    let retrieved_one = collection.get_json(&one_id).unwrap();
    let retrieved_two = collection.get_json(&two_id).unwrap();

    let vz: serde_json::Value = serde_json::from_str(&retrieved_zero).unwrap();
    if vz["body"] != "Zero" {
        panic!("Expected Zero");
    }
    let vo: serde_json::Value = serde_json::from_str(&retrieved_one).unwrap();
    if vo["body"]["Suc"]["pred"] != "Zero" {
        panic!("Expected Suc(Zero)");
    }
    let vt: serde_json::Value = serde_json::from_str(&retrieved_two).unwrap();
    if vt["body"]["Suc"]["pred"]["Suc"]["pred"] != "Zero" {
        panic!("Expected Suc(Suc(Zero))");
    }

    collection.update_json(&one_id, two.to_string()).unwrap();
    let updated_one = collection.get_json(&one_id).unwrap();
    let vu: serde_json::Value = serde_json::from_str(&updated_one).unwrap();
    if vu["body"]["Suc"]["pred"]["Suc"]["pred"] != "Zero" {
        panic!("Expected Suc(Suc(Zero)) after update");
    }

    collection.delete(&zero_id).unwrap();
    let result = collection.get_json(&zero_id);
    assert!(result.is_err());
}

#[test]
fn test_sum_subcollection() {
    let temp_dir = tempdir().unwrap();
    let db_path = temp_dir.path().to_str().unwrap();
    let mut db = open_db(db_path);
    let mut collection = db
        .create_collection("sum_subcol")
        .expect("Failed to create collection");

    let subcollection42 = collection
        .subcollection_json(r#"{"a":42}"#.to_string())
        .expect("Failed to create subcollection for deps42");

    let subcollection100 = collection
        .subcollection_json(r#"{"a":100}"#.to_string())
        .expect("Failed to create subcollection for deps100");

    let body = r#"{}"#;

    let id1 = subcollection42
        .insert_json(&mut collection, body.to_string())
        .expect("Failed to insert body1");
    let id2 = subcollection100
        .insert_json(&mut collection, body.to_string())
        .expect("Failed to insert body2");

    let retrieved1 = subcollection42
        .get_json(&collection, &id1)
        .expect("Failed to get body1");
    let retrieved2 = subcollection100
        .get_json(&collection, &id2)
        .expect("Failed to get body2");

    assert_eq!(retrieved1, body);
    assert_eq!(retrieved2, body);

    let wrong_result = subcollection42.get_json(&collection, &id2);
    assert!(wrong_result.is_err());

    let keys42 = subcollection42
        .get_keys(&collection)
        .expect("Failed to get keys from subcollection42");
    let keys100 = subcollection100
        .get_keys(&collection)
        .expect("Failed to get keys from subcollection100");

    assert_eq!(keys42.len(), 1);
    assert_eq!(keys100.len(), 1);
    assert!(keys42.contains(&id1));
    assert!(keys100.contains(&id2));

    let full_message1 = collection.get_json(&id1).expect("Failed to get full message1");
    let full_message2 = collection.get_json(&id2).expect("Failed to get full message2");

    let v1: serde_json::Value = serde_json::from_str(&full_message1).unwrap();
    let v2: serde_json::Value = serde_json::from_str(&full_message2).unwrap();
    assert!(v1["dependencies"]["a"] == 42);
    assert!(v2["dependencies"]["a"] == 100);

    subcollection42
        .delete(&mut collection, &id1)
        .expect("Failed to delete body1");

    let subcol_result = subcollection42.get_json(&collection, &id1);
    let col_result = collection.get_json(&id1);

    assert!(subcol_result.is_err());
    assert!(col_result.is_err());
}

#[test]
fn test_user_subcollection() {
    let temp_dir = tempdir().unwrap();
    let db_path = temp_dir.path().to_str().unwrap();
    let mut db = open_db(db_path);
    let mut collection = db
        .create_collection("user_subcol")
        .expect("Failed to create collection");

    let users_subcollection = collection
        .subcollection_json("{}".to_string())
        .expect("Failed to create users subcollection");

    let user1_body = r#"{"a":1,"b":2,"c":3}"#;
    let user2_body = r#"{"a":4,"b":5,"c":6}"#;
    let user3_body = r#"{"a":7,"b":8,"c":9}"#;

    let id1 = users_subcollection
        .insert_json(&mut collection, user1_body.to_string())
        .expect("Failed to insert user1");
    let id2 = users_subcollection
        .insert_json(&mut collection, user2_body.to_string())
        .expect("Failed to insert user2");
    let id3 = users_subcollection
        .insert_json(&mut collection, user3_body.to_string())
        .expect("Failed to insert user3");

    let retrieved1 = users_subcollection
        .get_json(&collection, &id1)
        .expect("Failed to get user1");
    let retrieved2 = users_subcollection
        .get_json(&collection, &id2)
        .expect("Failed to get user2");
    let retrieved3 = users_subcollection
        .get_json(&collection, &id3)
        .expect("Failed to get user3");

    assert_eq!(retrieved1, user1_body);
    assert_eq!(retrieved2, user2_body);
    assert_eq!(retrieved3, user3_body);

    let keys = users_subcollection
        .get_keys(&collection)
        .expect("Failed to get keys");
    assert_eq!(keys.len(), 3);
    assert!(keys.contains(&id1) && keys.contains(&id2) && keys.contains(&id3));

    let full_user1 = collection.get_json(&id1).expect("Failed to get full user1");
    let full_user2 = collection.get_json(&id2).expect("Failed to get full user2");

    let v1: serde_json::Value = serde_json::from_str(&full_user1).unwrap();
    let v2: serde_json::Value = serde_json::from_str(&full_user2).unwrap();
    assert!(v1["body"]["a"] == 1);
    assert!(v2["body"]["a"] == 4);

    let updated_body = r#"{"a":10,"b":11,"c":12}"#;
    users_subcollection
        .update_json(&mut collection, &id1, updated_body.to_string())
        .expect("Failed to update user1");

    let updated_retrieved = users_subcollection
        .get_json(&collection, &id1)
        .expect("Failed to get updated user");
    assert_eq!(updated_retrieved, updated_body);

    users_subcollection
        .delete(&mut collection, &id2)
        .expect("Failed to delete user2");

    let delete_result = users_subcollection.get_json(&collection, &id2);
    assert!(delete_result.is_err());

    let updated_keys = users_subcollection
        .get_keys(&collection)
        .expect("Failed to get updated keys");
    assert_eq!(updated_keys.len(), 2);
    assert!(updated_keys.contains(&id1) && updated_keys.contains(&id3));
    assert!(!updated_keys.contains(&id2));
}

#[test]
fn test_schema_consistency() {
    let temp_dir = tempdir().unwrap();
    let db_path = temp_dir.path().to_str().unwrap();

    let body_schema = r#"{"type":"object","properties":{"name":{"type":"string"}},"required":["name"],"additionalProperties":false}"#;
    let deps_schema = r#"{"type":"object","properties":{"id":{"type":"string"}},"required":["id"],"additionalProperties":false}"#;

    {
        let mut db = open_db(db_path);

        db.create_collection_with_schema_json("test_schema", body_schema, deps_schema)
            .expect("Failed to create collection with schema");
    }

    let mut db2 = Database::new(Some(db_path)).expect("Failed to open database again");
    let mut collection = db2
        .get_collection("test_schema")
        .expect("Failed to get collection");

    assert!(collection.has_schema());

    let body_schema_from_db = collection.get_body_schema_json().unwrap();
    let deps_schema_from_db = collection.get_dependencies_schema_json().unwrap();

    let body_value: serde_json::Value = serde_json::from_str(body_schema_from_db).unwrap();
    let deps_value: serde_json::Value = serde_json::from_str(deps_schema_from_db).unwrap();

    assert!(body_value["type"] == "object");
    assert!(body_value["required"][0] == "name");
    assert!(body_value["additionalProperties"] == false);

    assert!(deps_value["type"] == "object");
    assert!(deps_value["required"][0] == "id");
    assert!(deps_value["additionalProperties"] == false);

    let valid_json = r#"{"body":{"name":"Test"},"dependencies":{"id":"123"}}"#;
    let result = collection.insert_json(valid_json.to_string());
    assert!(result.is_ok(), "Valid data should be accepted: {:?}", result);

    let invalid_json = r#"{"body":{"name":123},"dependencies":{"id":"123"}}"#;
    let result = collection.insert_json(invalid_json.to_string());
    assert!(matches!(result, Err(DbError::SchemaValidationError(_))));
}
