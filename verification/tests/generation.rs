use dbscriptgen::project::FieldMapping;
use dbscriptgen::script::{
    generate_mongodb_delete_script, generate_mongodb_insert_script, generate_mongodb_script,
    generate_mysql_delete_script, generate_mysql_insert_script, generate_mysql_script,
};

fn mapping(db_field: &str, csv_index: usize, field_type: Option<&str>) -> FieldMapping {
    FieldMapping {
        db_field: db_field.to_string(),
        csv_index,
        field_type: field_type.map(|t| t.to_string()),
    }
}

fn rows(data: &[&[&str]]) -> Vec<Vec<String>> {
    data.iter().map(|r| r.iter().map(|c| c.to_string()).collect()).collect()
}

fn names(ns: &[&str]) -> Vec<String> {
    ns.iter().map(|n| n.to_string()).collect()
}

#[test]
fn relational_update_single_row() {
    let csv = rows(&[&["id", "name"], &["1", "Alice"]]);
    let mappings = vec![
        mapping("id", 0, Some("Integer")),
        mapping("name", 1, Some("String")),
    ];
    let script = generate_mysql_script(
        &csv,
        &mappings,
        &"id".to_string(),
        &names(&["name"]),
        &"users".to_string(),
    );
    assert_eq!(script, "UPDATE users SET name = 'Alice' WHERE id = 1;\n");
}

#[test]
fn header_only_input_yields_empty_scripts() {
    let csv = rows(&[&["id", "name"]]);
    let mappings = vec![
        mapping("id", 0, Some("Integer")),
        mapping("name", 1, Some("String")),
    ];
    let cond = "id".to_string();
    let fields = names(&["name"]);
    let table = "users".to_string();
    assert_eq!(generate_mysql_script(&csv, &mappings, &cond, &fields, &table), "");
    assert_eq!(generate_mysql_insert_script(&csv, &mappings, &table), "");
    assert_eq!(generate_mysql_delete_script(&csv, &mappings, &cond, &table), "");
    assert_eq!(generate_mongodb_script(&csv, &mappings, &cond, &fields, &table), "");
    assert_eq!(generate_mongodb_insert_script(&csv, &mappings, &table), "");
    assert_eq!(generate_mongodb_delete_script(&csv, &mappings, &cond, &table), "");
}

#[test]
fn empty_input_yields_empty_scripts() {
    let csv: Vec<Vec<String>> = Vec::new();
    let mappings = vec![mapping("id", 0, Some("Integer"))];
    let table = "users".to_string();
    assert_eq!(generate_mysql_insert_script(&csv, &mappings, &table), "");
    assert_eq!(generate_mongodb_insert_script(&csv, &mappings, &table), "");
}

#[test]
fn document_update_single_row() {
    let csv = rows(&[&["id", "name"], &["1", "Alice"]]);
    let mappings = vec![
        mapping("id", 0, Some("Integer")),
        mapping("name", 1, Some("String")),
    ];
    let script = generate_mongodb_script(
        &csv,
        &mappings,
        &"id".to_string(),
        &names(&["name"]),
        &"users".to_string(),
    );
    assert_eq!(
        script,
        "db.users.updateOne({ id: 1 }, { $set: { \"name\": \"Alice\" } });\n"
    );
}

#[test]
fn relational_insert_rows() {
    let csv = rows(&[&["id", "name"], &["1", "Alice"], &["2", "O'Brien"]]);
    let mappings = vec![
        mapping("id", 0, Some("Integer")),
        mapping("name", 1, Some("String")),
    ];
    let script = generate_mysql_insert_script(&csv, &mappings, &"users".to_string());
    assert_eq!(
        script,
        "INSERT INTO users (id, name) VALUES (1, 'Alice');\n\
         INSERT INTO users (id, name) VALUES (2, 'O''Brien');\n"
    );
}

#[test]
fn document_insert_row() {
    let csv = rows(&[&["id", "name"], &["1", "Alice"]]);
    let mappings = vec![
        mapping("id", 0, Some("Integer")),
        mapping("name", 1, Some("String")),
    ];
    let script = generate_mongodb_insert_script(&csv, &mappings, &"users".to_string());
    assert_eq!(
        script,
        "db.users.insertOne({ \"id\": NumberInt(1), \"name\": \"Alice\" });\n"
    );
}

#[test]
fn relational_delete_rows() {
    let csv = rows(&[&["id"], &["1"], &["2"]]);
    let mappings = vec![mapping("id", 0, Some("Integer"))];
    let script = generate_mysql_delete_script(
        &csv,
        &mappings,
        &"id".to_string(),
        &"users".to_string(),
    );
    assert_eq!(script, "DELETE FROM users WHERE id = 1;\nDELETE FROM users WHERE id = 2;\n");
}

#[test]
fn document_delete_row() {
    let csv = rows(&[&["id"], &["1"]]);
    let mappings = vec![mapping("id", 0, Some("Integer"))];
    let script = generate_mongodb_delete_script(
        &csv,
        &mappings,
        &"id".to_string(),
        &"users".to_string(),
    );
    assert_eq!(script, "db.users.deleteOne({ id: 1 });\n");
}

#[test]
fn update_skips_row_with_empty_condition() {
    let csv = rows(&[&["id", "name"], &["", "Alice"], &["2", "Bob"]]);
    let mappings = vec![
        mapping("id", 0, Some("Integer")),
        mapping("name", 1, Some("String")),
    ];
    let script = generate_mysql_script(
        &csv,
        &mappings,
        &"id".to_string(),
        &names(&["name"]),
        &"users".to_string(),
    );
    assert_eq!(script, "UPDATE users SET name = 'Bob' WHERE id = 2;\n");
}

#[test]
fn update_skips_row_with_empty_payload() {
    let csv = rows(&[&["id", "name"], &["1", "Alice"]]);
    let mappings = vec![mapping("id", 0, Some("Integer"))];
    // No mapping resolves a target field: nothing is emitted.
    let script = generate_mysql_script(
        &csv,
        &mappings,
        &"id".to_string(),
        &names(&["name"]),
        &"users".to_string(),
    );
    assert_eq!(script, "");
}

#[test]
fn delete_skips_unmapped_condition_field() {
    let csv = rows(&[&["id"], &["1"]]);
    let mappings = vec![mapping("id", 0, Some("Integer"))];
    let script = generate_mysql_delete_script(
        &csv,
        &mappings,
        &"key".to_string(),
        &"users".to_string(),
    );
    assert_eq!(script, "");
}

#[test]
fn out_of_range_column_is_skipped() {
    let csv = rows(&[&["id"], &["1"]]);
    let mappings = vec![
        mapping("id", 0, Some("Integer")),
        mapping("extra", 7, Some("String")),
    ];
    let script = generate_mysql_insert_script(&csv, &mappings, &"users".to_string());
    assert_eq!(script, "INSERT INTO users (id) VALUES (1);\n");
}

#[test]
fn insert_skips_row_when_nothing_resolves() {
    let csv = rows(&[&["id"], &["1"]]);
    let mappings = vec![mapping("extra", 7, Some("String"))];
    let script = generate_mysql_insert_script(&csv, &mappings, &"users".to_string());
    assert_eq!(script, "");
}

#[test]
fn duplicate_field_mappings_overwrite() {
    let csv = rows(&[&["a", "b"], &["x", "y"]]);
    let mappings = vec![
        mapping("name", 1, Some("String")),
        mapping("name", 0, Some("String")),
    ];
    // The later mapping of the same field wins, and the field appears once.
    let script = generate_mysql_insert_script(&csv, &mappings, &"t".to_string());
    assert_eq!(script, "INSERT INTO t (name) VALUES ('x');\n");
}

#[test]
fn condition_takes_last_matching_mapping() {
    let csv = rows(&[&["a", "b"], &["7", "abc"]]);
    let mappings = vec![
        mapping("id", 0, Some("Integer")),
        mapping("id", 1, Some("String")),
    ];
    let script = generate_mysql_delete_script(
        &csv,
        &mappings,
        &"id".to_string(),
        &"t".to_string(),
    );
    assert_eq!(script, "DELETE FROM t WHERE id = 'abc';\n");
}

#[test]
fn empty_cell_in_payload_becomes_null() {
    let csv = rows(&[&["id", "name"], &["1", ""]]);
    let mappings = vec![
        mapping("id", 0, Some("Integer")),
        mapping("name", 1, Some("String")),
    ];
    let rel = generate_mysql_script(
        &csv,
        &mappings,
        &"id".to_string(),
        &names(&["name"]),
        &"users".to_string(),
    );
    assert_eq!(rel, "UPDATE users SET name = NULL WHERE id = 1;\n");
    let doc = generate_mongodb_script(
        &csv,
        &mappings,
        &"id".to_string(),
        &names(&["name"]),
        &"users".to_string(),
    );
    assert_eq!(doc, "db.users.updateOne({ id: 1 }, { $set: { \"name\": null } });\n");
}

#[test]
fn date_fields_in_statements() {
    let csv = rows(&[&["id", "born"], &["1", "2024-01-01"]]);
    let mappings = vec![
        mapping("id", 0, Some("Integer")),
        mapping("born", 1, Some("java.time.LocalDate")),
    ];
    let rel = generate_mysql_script(
        &csv,
        &mappings,
        &"id".to_string(),
        &names(&["born"]),
        &"users".to_string(),
    );
    assert_eq!(
        rel,
        "UPDATE users SET born = STR_TO_DATE('2024-01-01', '%Y-%m-%d') WHERE id = 1;\n"
    );
    let doc = generate_mongodb_script(
        &csv,
        &mappings,
        &"id".to_string(),
        &names(&["born"]),
        &"users".to_string(),
    );
    assert_eq!(
        doc,
        "db.users.updateOne({ id: 1 }, { $set: { \"born\": new Date(\"2024-01-01\") } });\n"
    );
}

#[test]
fn boolean_condition_in_relational_update() {
    let csv = rows(&[&["flag", "name"], &["TRUE", "Alice"]]);
    let mappings = vec![
        mapping("active", 0, Some("Boolean")),
        mapping("name", 1, Some("String")),
    ];
    let script = generate_mysql_script(
        &csv,
        &mappings,
        &"active".to_string(),
        &names(&["name"]),
        &"users".to_string(),
    );
    assert_eq!(script, "UPDATE users SET name = 'Alice' WHERE active = TRUE;\n");
}

#[test]
fn string_condition_is_quoted_in_document_filter() {
    let csv = rows(&[&["name"], &["Alice"]]);
    let mappings = vec![mapping("name", 0, Some("String"))];
    let script = generate_mongodb_delete_script(
        &csv,
        &mappings,
        &"name".to_string(),
        &"users".to_string(),
    );
    assert_eq!(script, "db.users.deleteOne({ name: 'Alice' });\n");
}

#[test]
fn untyped_mapping_renders_quoted_strings() {
    let csv = rows(&[&["id", "note"], &["1", "hi"]]);
    let mappings = vec![mapping("id", 0, None), mapping("note", 1, None)];
    let script = generate_mysql_insert_script(&csv, &mappings, &"t".to_string());
    assert_eq!(script, "INSERT INTO t (id, note) VALUES ('1', 'hi');\n");
}

#[test]
fn document_insert_with_construction_forms() {
    let csv = rows(&[
        &["oid", "tags", "meta"],
        &["507f1f77bcf86cd799439011", "a, b", "{\"k\": 1}"],
    ]);
    let mappings = vec![
        mapping("oid", 0, Some("ObjectId")),
        mapping("tags", 1, Some("Array")),
        mapping("meta", 2, Some("Object")),
    ];
    let script = generate_mongodb_insert_script(&csv, &mappings, &"docs".to_string());
    assert_eq!(
        script,
        "db.docs.insertOne({ \"oid\": ObjectId(\"507f1f77bcf86cd799439011\"), \
         \"tags\": [\"a\", \"b\"], \"meta\": {\"k\": 1} });\n"
    );
}

#[test]
fn payload_pairs_match_resolved_fields_as_a_set() {
    let csv = rows(&[&["a", "b", "c"], &["1", "x", "y"]]);
    let mappings = vec![
        mapping("id", 0, Some("Integer")),
        mapping("first", 1, Some("String")),
        mapping("second", 2, Some("String")),
    ];
    let script = generate_mysql_script(
        &csv,
        &mappings,
        &"id".to_string(),
        &names(&["first", "second"]),
        &"t".to_string(),
    );
    // Exactly one statement, holding both target pairs and nothing else.
    assert_eq!(script.matches("UPDATE").count(), 1);
    assert!(script.contains("first = 'x'"));
    assert!(script.contains("second = 'y'"));
    assert_eq!(script.matches(" = ").count(), 3);
}
