//! The runner against the in-memory store: idempotence, order invariance,
//! fail-fast, bootstrap, and the concrete migration history.

use project_journal::catalog::{Catalog, CatalogError, Direction, MigrationDescriptor};
use project_journal::migrations::migrations;
use project_journal::runner::{apply, copy_store};
use project_journal::schema::{ColumnDef, Table, TableDef};
use project_journal::statement::Statement;
use project_journal::store::{Store, StoreError};
use project_journal::values::Value;

fn load_prefix(k: usize) -> Catalog {
    let mut list = migrations();
    list.truncate(k);
    Catalog::load(list).expect("prefix catalog must be valid")
}

fn table<'a>(s: &'a Store, name: &str) -> &'a Table {
    s.tables
        .iter()
        .find(|t| t.name == name)
        .unwrap_or_else(|| panic!("no table {}", name))
}

fn col_names(t: &Table) -> Vec<String> {
    t.cols.iter().map(|c| c.name.clone()).collect()
}

fn plain_col(name: &str, not_null: bool) -> ColumnDef {
    ColumnDef { name: name.to_owned(), not_null, fk: None }
}

fn descriptor(version: u64, description: &str, body: Vec<Statement>) -> MigrationDescriptor {
    MigrationDescriptor {
        version,
        description: description.to_owned(),
        body,
        direction: Direction::Up,
    }
}

#[test]
fn full_catalog_applies_on_fresh_store() {
    let catalog = Catalog::load(migrations()).expect("catalog is valid");
    assert_eq!(catalog.len(), 9);
    let mut store = Store::new();
    let n = apply(&catalog, &mut store).expect("apply succeeds");
    assert_eq!(n, 9);
    assert_eq!(store.ledger, Some(vec![1, 2, 3, 4, 5, 6, 7, 8, 9]));
    // final schema: projects(id, name, parent, type)
    assert_eq!(
        col_names(table(&store, "projects")),
        vec!["id", "name", "parent", "type"]
    );
    assert_eq!(
        col_names(table(&store, "entries")),
        vec!["id", "date_created", "content", "project_id", "date_updated"]
    );
    assert_eq!(
        col_names(table(&store, "status")),
        vec!["id", "project_id", "progress", "start_date", "end_date", "date_created"]
    );
    assert_eq!(col_names(table(&store, "settings")), vec!["key", "value"]);
    assert_eq!(store.indexes.len(), 1);
    assert_eq!(store.indexes[0].name, "settings_key_index");
    assert!(store.fk_on);
}

#[test]
fn apply_twice_is_idempotent() {
    let catalog = Catalog::load(migrations()).expect("catalog is valid");
    let mut store = Store::new();
    let first = apply(&catalog, &mut store).expect("first apply succeeds");
    assert_eq!(first, 9);
    let snapshot = copy_store(&store);
    let second = apply(&catalog, &mut store).expect("second apply succeeds");
    assert_eq!(second, 0);
    assert_eq!(store, snapshot);
}

#[test]
fn stepwise_prefixes_match_single_apply() {
    // migration-by-migration, one apply call per growing prefix
    let mut stepwise = Store::new();
    for k in 1..=9 {
        let prefix = load_prefix(k);
        let n = apply(&prefix, &mut stepwise).expect("prefix apply succeeds");
        assert_eq!(n, 1);
    }
    let mut once = Store::new();
    let catalog = Catalog::load(migrations()).expect("catalog is valid");
    assert_eq!(apply(&catalog, &mut once), Ok(9));
    assert_eq!(stepwise, once);
}

#[test]
fn failing_version_stops_the_walk() {
    // version 2 recreates an existing table and fails; version 3 never runs
    let list = vec![
        descriptor(1, "projects", vec![Statement::CreateTable(TableDef {
            name: "projects".to_owned(),
            cols: vec![plain_col("id", true), plain_col("name", true)],
        })]),
        descriptor(2, "projects_again", vec![Statement::CreateTable(TableDef {
            name: "projects".to_owned(),
            cols: vec![plain_col("id", true)],
        })]),
        descriptor(3, "settings", vec![Statement::CreateTable(TableDef {
            name: "settings".to_owned(),
            cols: vec![plain_col("key", true)],
        })]),
    ];
    let catalog = Catalog::load(list).expect("catalog shape is valid");
    let mut store = Store::new();
    let err = apply(&catalog, &mut store).expect_err("version 2 must fail");
    assert_eq!(err.version, 2);
    assert_eq!(err.description, "projects_again");
    assert_eq!(err.cause, StoreError::DuplicateTable);
    // the ledger holds nothing at or above the failing version
    assert_eq!(store.ledger, Some(vec![1]));
    // version 3 was never executed
    assert!(store.tables.iter().all(|t| t.name != "settings"));
    assert_eq!(table(&store, "projects").cols.len(), 2);
}

#[test]
fn failed_migration_rolls_back_its_own_statements() {
    // the first statement of version 1 succeeds, the second fails: the
    // transactional boundary leaves no trace of either
    let list = vec![descriptor(1, "partial", vec![
        Statement::CreateTable(TableDef {
            name: "one".to_owned(),
            cols: vec![plain_col("id", true)],
        }),
        Statement::CreateIndex { name: "ix".to_owned(), table: "missing".to_owned() },
    ])];
    let catalog = Catalog::load(list).expect("catalog shape is valid");
    let mut store = Store::new();
    let err = apply(&catalog, &mut store).expect_err("version 1 must fail");
    assert_eq!(err.version, 1);
    assert_eq!(err.cause, StoreError::NoSuchTable);
    assert!(store.tables.is_empty());
    assert_eq!(store.ledger, Some(vec![]));
}

#[test]
fn bootstrap_creates_the_ledger() {
    let mut store = Store::new();
    assert_eq!(store.ledger, None);
    let catalog = Catalog::load(migrations()).expect("catalog is valid");
    let n = apply(&catalog, &mut store).expect("apply on a brand-new store succeeds");
    assert_eq!(n, 9);
    assert!(store.ledger.is_some());
}

#[test]
fn empty_catalog_is_a_valid_no_op() {
    let catalog = Catalog::load(Vec::new()).expect("empty catalog is valid");
    let mut store = Store::new();
    assert_eq!(apply(&catalog, &mut store), Ok(0));
    assert!(store.tables.is_empty());
    assert_eq!(store.ledger, Some(vec![]));
}

#[test]
fn duplicate_version_is_rejected_before_any_statement() {
    let body = vec![Statement::CreateTable(TableDef {
        name: "t".to_owned(),
        cols: vec![plain_col("id", true)],
    })];
    let list = vec![
        descriptor(3, "first", body.clone()),
        descriptor(3, "second", body),
    ];
    assert_eq!(Catalog::load(list), Err(CatalogError::DuplicateVersion));
}

#[test]
fn non_ascending_version_is_rejected() {
    let list = vec![
        descriptor(2, "two", vec![]),
        descriptor(1, "one", vec![]),
    ];
    assert_eq!(Catalog::load(list), Err(CatalogError::NonAscendingVersion));
    let zero = vec![descriptor(0, "zero", vec![])];
    assert_eq!(Catalog::load(zero), Err(CatalogError::NonAscendingVersion));
}

#[test]
fn rename_rebuild_keeps_the_row() {
    // entries(id, date, content, project_id) with row (1, "2024-01-01", "hello", 10);
    // after the rename migration the row surfaces with date_created and a null date_updated
    let mut store = Store::new();
    let v1 = load_prefix(1);
    assert_eq!(apply(&v1, &mut store), Ok(1));
    store
        .insert_row(&"projects".to_owned(), vec![Value::IntVal(10), Value::TextVal("home".to_owned())])
        .expect("project 10 inserts");
    store
        .insert_row(&"entries".to_owned(), vec![
            Value::IntVal(1),
            Value::TextVal("2024-01-01".to_owned()),
            Value::TextVal("hello".to_owned()),
            Value::IntVal(10),
        ])
        .expect("entry inserts");
    let v3 = load_prefix(3);
    assert_eq!(apply(&v3, &mut store), Ok(2));
    let entries = table(&store, "entries");
    assert_eq!(
        col_names(entries),
        vec!["id", "date_created", "content", "project_id", "date_updated"]
    );
    assert_eq!(entries.rows.len(), 1);
    assert_eq!(entries.rows[0], vec![
        Value::IntVal(1),
        Value::TextVal("2024-01-01".to_owned()),
        Value::TextVal("hello".to_owned()),
        Value::IntVal(10),
        Value::NullVal,
    ]);
}

#[test]
fn cascade_delete_removes_the_entry() {
    let mut store = Store::new();
    let v1 = load_prefix(1);
    assert_eq!(apply(&v1, &mut store), Ok(1));
    store
        .insert_row(&"projects".to_owned(), vec![Value::IntVal(10), Value::TextVal("p".to_owned())])
        .expect("project inserts");
    store
        .insert_row(&"entries".to_owned(), vec![
            Value::IntVal(1),
            Value::TextVal("2024-01-01".to_owned()),
            Value::TextVal("hello".to_owned()),
            Value::IntVal(10),
        ])
        .expect("entry inserts");
    store
        .delete_where(&"projects".to_owned(), &Value::IntVal(10))
        .expect("cascading delete succeeds");
    assert!(table(&store, "projects").rows.is_empty());
    assert!(table(&store, "entries").rows.is_empty());
}

#[test]
fn dropped_cascade_blocks_the_delete() {
    // after the full history the entries foreign key no longer cascades
    let mut store = Store::new();
    let catalog = Catalog::load(migrations()).expect("catalog is valid");
    assert_eq!(apply(&catalog, &mut store), Ok(9));
    store
        .insert_row(&"projects".to_owned(), vec![
            Value::IntVal(10),
            Value::TextVal("p".to_owned()),
            Value::NullVal,
            Value::NullVal,
        ])
        .expect("project inserts");
    store
        .insert_row(&"entries".to_owned(), vec![
            Value::IntVal(1),
            Value::TextVal("2024-01-01".to_owned()),
            Value::TextVal("hello".to_owned()),
            Value::IntVal(10),
            Value::NullVal,
        ])
        .expect("entry inserts");
    let err = store
        .delete_where(&"projects".to_owned(), &Value::IntVal(10))
        .expect_err("the dependent entry blocks the delete");
    assert_eq!(err, StoreError::FkViolation);
    assert_eq!(table(&store, "projects").rows.len(), 1);
    assert_eq!(table(&store, "entries").rows.len(), 1);
}

#[test]
fn project_type_backfill_distinguishes_parents() {
    let mut store = Store::new();
    let v8 = load_prefix(8);
    assert_eq!(apply(&v8, &mut store), Ok(8));
    store
        .insert_row(&"projects".to_owned(), vec![
            Value::IntVal(1),
            Value::TextVal("top".to_owned()),
            Value::NullVal,
        ])
        .expect("top-level project inserts");
    store
        .insert_row(&"projects".to_owned(), vec![
            Value::IntVal(2),
            Value::TextVal("sub".to_owned()),
            Value::IntVal(1),
        ])
        .expect("subtask inserts");
    let full = Catalog::load(migrations()).expect("catalog is valid");
    assert_eq!(apply(&full, &mut store), Ok(1));
    let projects = table(&store, "projects");
    assert_eq!(projects.rows[0][3], Value::TextVal("project".to_owned()));
    assert_eq!(projects.rows[1][3], Value::TextVal("task".to_owned()));
}

#[test]
fn migration_versions_and_descriptions_match_history() {
    let list = migrations();
    let versions: Vec<u64> = list.iter().map(|m| m.version).collect();
    assert_eq!(versions, vec![1, 2, 3, 4, 5, 6, 7, 8, 9]);
    let descriptions: Vec<&str> = list.iter().map(|m| m.description.as_str()).collect();
    assert_eq!(descriptions, vec![
        "create_initial_tables",
        "add_date_updated",
        "rename_date_created",
        "add_settings_table",
        "add_status_table",
        "update_status_table",
        "dont_cascade_delete",
        "add_project_parent",
        "add_project_type_column",
    ]);
}

#[test]
fn version_gaps_are_legal() {
    let list = vec![
        descriptor(1, "one", vec![Statement::CreateTable(TableDef {
            name: "a".to_owned(),
            cols: vec![plain_col("id", true)],
        })]),
        descriptor(5, "five", vec![Statement::CreateTable(TableDef {
            name: "b".to_owned(),
            cols: vec![plain_col("id", true)],
        })]),
        descriptor(9, "nine", vec![Statement::CreateTable(TableDef {
            name: "c".to_owned(),
            cols: vec![plain_col("id", true)],
        })]),
    ];
    let catalog = Catalog::load(list).expect("gaps are legal");
    let mut store = Store::new();
    assert_eq!(apply(&catalog, &mut store), Ok(3));
    assert_eq!(store.ledger, Some(vec![1, 5, 9]));
    assert_eq!(store.tables.len(), 3);
}
