//! The store operations one by one: each error on an input that provokes
//! it, and the rebuild helper's all-or-nothing promise.

use project_journal::schema::{ColumnDef, ForeignKey, TableDef};
use project_journal::store::{CopyPair, RebuildPlan, Store, StoreError};
use project_journal::values::Value;

fn named(name: &str) -> String {
    name.to_owned()
}

fn plain(name: &str, not_null: bool) -> ColumnDef {
    ColumnDef { name: named(name), not_null, fk: None }
}

fn with_fk(name: &str, parent: &str, cascade: bool) -> ColumnDef {
    ColumnDef {
        name: named(name),
        not_null: false,
        fk: Some(ForeignKey { parent: named(parent), cascade }),
    }
}

fn two_tables() -> Store {
    let mut s = Store::new();
    s.create_table(TableDef {
        name: named("parents"),
        cols: vec![plain("id", true), plain("label", false)],
    })
    .expect("parents creates");
    s.create_table(TableDef {
        name: named("children"),
        cols: vec![plain("id", true), with_fk("parent_id", "parents", false)],
    })
    .expect("children creates");
    s
}

#[test]
fn create_table_twice_is_refused() {
    let mut s = two_tables();
    let err = s
        .create_table(TableDef { name: named("parents"), cols: vec![plain("id", true)] })
        .expect_err("name is taken");
    assert_eq!(err, StoreError::DuplicateTable);
    assert_eq!(s.tables.len(), 2);
}

#[test]
fn create_table_with_repeated_column_is_refused() {
    let mut s = Store::new();
    let err = s
        .create_table(TableDef {
            name: named("t"),
            cols: vec![plain("id", true), plain("id", false)],
        })
        .expect_err("column repeats");
    assert_eq!(err, StoreError::DuplicateColumn);
    assert!(s.tables.is_empty());
}

#[test]
fn create_index_needs_the_table() {
    let mut s = Store::new();
    let err = s.create_index(named("ix"), named("missing")).expect_err("no table");
    assert_eq!(err, StoreError::NoSuchTable);
}

#[test]
fn create_index_twice_is_refused() {
    let mut s = two_tables();
    s.create_index(named("ix"), named("parents")).expect("first index creates");
    let err = s.create_index(named("ix"), named("children")).expect_err("name is taken");
    assert_eq!(err, StoreError::DuplicateIndex);
    assert_eq!(s.indexes.len(), 1);
}

#[test]
fn add_column_errors() {
    let mut s = two_tables();
    assert_eq!(
        s.add_column(&named("missing"), plain("x", false)),
        Err(StoreError::NoSuchTable)
    );
    assert_eq!(
        s.add_column(&named("parents"), plain("id", false)),
        Err(StoreError::DuplicateColumn)
    );
    // the engine cannot add a non-nullable column to existing rows
    assert_eq!(
        s.add_column(&named("parents"), plain("x", true)),
        Err(StoreError::NotNullViolation)
    );
    s.add_column(&named("parents"), plain("x", false)).expect("nullable column adds");
    assert_eq!(s.tables[0].cols.len(), 3);
}

#[test]
fn added_column_reads_null_on_existing_rows() {
    let mut s = two_tables();
    s.insert_row(&named("parents"), vec![Value::IntVal(1), Value::TextVal(named("a"))])
        .expect("row inserts");
    s.add_column(&named("parents"), plain("x", false)).expect("column adds");
    assert_eq!(s.tables[0].rows[0], vec![
        Value::IntVal(1),
        Value::TextVal(named("a")),
        Value::NullVal,
    ]);
}

#[test]
fn insert_row_errors() {
    let mut s = two_tables();
    assert_eq!(
        s.insert_row(&named("missing"), vec![]),
        Err(StoreError::NoSuchTable)
    );
    assert_eq!(
        s.insert_row(&named("parents"), vec![Value::IntVal(1)]),
        Err(StoreError::ArityMismatch)
    );
    assert_eq!(
        s.insert_row(&named("parents"), vec![Value::NullVal, Value::NullVal]),
        Err(StoreError::NotNullViolation)
    );
    s.insert_row(&named("parents"), vec![Value::IntVal(1), Value::NullVal])
        .expect("first row inserts");
    assert_eq!(
        s.insert_row(&named("parents"), vec![Value::IntVal(1), Value::TextVal(named("b"))]),
        Err(StoreError::DuplicateKey)
    );
    // a dangling reference is refused while enforcement is on
    assert_eq!(
        s.insert_row(&named("children"), vec![Value::IntVal(7), Value::IntVal(99)]),
        Err(StoreError::FkViolation)
    );
    // and accepted with enforcement off
    s.set_foreign_keys(false);
    s.insert_row(&named("children"), vec![Value::IntVal(7), Value::IntVal(99)])
        .expect("unchecked insert succeeds");
    assert!(!s.foreign_key_check());
    s.set_foreign_keys(true);
}

#[test]
fn update_where_errors_and_effect() {
    let mut s = two_tables();
    s.insert_row(&named("parents"), vec![Value::IntVal(1), Value::NullVal])
        .expect("row with null label");
    s.insert_row(&named("parents"), vec![Value::IntVal(2), Value::TextVal(named("kept"))])
        .expect("row with label");
    assert_eq!(
        s.update_where(&named("missing"), &named("label"), &Value::IntVal(0), &named("label"), true),
        Err(StoreError::NoSuchTable)
    );
    assert_eq!(
        s.update_where(&named("parents"), &named("nope"), &Value::IntVal(0), &named("label"), true),
        Err(StoreError::NoSuchColumn)
    );
    s.update_where(
        &named("parents"),
        &named("label"),
        &Value::TextVal(named("filled")),
        &named("label"),
        true,
    )
    .expect("update succeeds");
    assert_eq!(s.tables[0].rows[0][1], Value::TextVal(named("filled")));
    assert_eq!(s.tables[0].rows[1][1], Value::TextVal(named("kept")));
}

#[test]
fn delete_where_errors() {
    let mut s = two_tables();
    assert_eq!(
        s.delete_where(&named("missing"), &Value::IntVal(1)),
        Err(StoreError::NoSuchTable)
    );
    // deleting an absent key is a successful no-op
    s.insert_row(&named("parents"), vec![Value::IntVal(1), Value::NullVal])
        .expect("row inserts");
    s.delete_where(&named("parents"), &Value::IntVal(42)).expect("no-op delete");
    assert_eq!(s.tables[0].rows.len(), 1);
}

#[test]
fn rebuild_replaces_shape_and_rows() {
    let mut s = two_tables();
    s.insert_row(&named("parents"), vec![Value::IntVal(1), Value::TextVal(named("a"))])
        .expect("row inserts");
    s.rebuild_table(&RebuildPlan {
        target: named("parents"),
        def: TableDef {
            name: named("parents_tmp"),
            cols: vec![plain("id", true), plain("title", false), plain("extra", false)],
        },
        copy: vec![
            CopyPair { to: named("id"), from: named("id") },
            CopyPair { to: named("title"), from: named("label") },
        ],
    })
    .expect("rebuild succeeds");
    let t = &s.tables[0];
    assert_eq!(t.name, "parents");
    let names: Vec<&str> = t.cols.iter().map(|c| c.name.as_str()).collect();
    assert_eq!(names, vec!["id", "title", "extra"]);
    assert_eq!(t.rows, vec![vec![
        Value::IntVal(1),
        Value::TextVal(named("a")),
        Value::NullVal,
    ]]);
}

#[test]
fn rebuild_errors() {
    let mut s = two_tables();
    let def = TableDef { name: named("tmp"), cols: vec![plain("id", true)] };
    assert_eq!(
        s.rebuild_table(&RebuildPlan { target: named("missing"), def: def.clone(), copy: vec![] }),
        Err(StoreError::NoSuchTable)
    );
    assert_eq!(
        s.rebuild_table(&RebuildPlan {
            target: named("parents"),
            def: TableDef { name: named("children"), cols: vec![plain("id", true)] },
            copy: vec![],
        }),
        Err(StoreError::DuplicateTable)
    );
    assert_eq!(
        s.rebuild_table(&RebuildPlan {
            target: named("parents"),
            def: TableDef { name: named("tmp"), cols: vec![plain("id", true), plain("id", false)] },
            copy: vec![],
        }),
        Err(StoreError::DuplicateColumn)
    );
    assert_eq!(
        s.rebuild_table(&RebuildPlan {
            target: named("parents"),
            def: def.clone(),
            copy: vec![CopyPair { to: named("id"), from: named("nope") }],
        }),
        Err(StoreError::NoSuchColumn)
    );
}

#[test]
fn rebuild_that_breaks_integrity_changes_nothing() {
    let mut s = two_tables();
    s.insert_row(&named("parents"), vec![Value::IntVal(1), Value::NullVal])
        .expect("parent inserts");
    s.insert_row(&named("children"), vec![Value::IntVal(5), Value::IntVal(1)])
        .expect("child inserts");
    // rebuilding parents without carrying the keys over orphans the child:
    // the final foreign-key check fails and no partial rename is visible
    let before_tables = s.tables.clone();
    let err = s
        .rebuild_table(&RebuildPlan {
            target: named("parents"),
            def: TableDef { name: named("parents_tmp"), cols: vec![plain("id", true)] },
            copy: vec![],
        })
        .expect_err("orphaned child fails the check");
    assert_eq!(err, StoreError::FkViolation);
    assert_eq!(s.tables, before_tables);
    assert!(s.foreign_key_check());
}

#[test]
fn rebuild_drops_the_targets_indexes() {
    let mut s = two_tables();
    s.create_index(named("parents_ix"), named("parents")).expect("index creates");
    s.create_index(named("children_ix"), named("children")).expect("index creates");
    s.rebuild_table(&RebuildPlan {
        target: named("parents"),
        def: TableDef { name: named("tmp"), cols: vec![plain("id", true)] },
        copy: vec![CopyPair { to: named("id"), from: named("id") }],
    })
    .expect("rebuild succeeds");
    let names: Vec<&str> = s.indexes.iter().map(|i| i.name.as_str()).collect();
    assert_eq!(names, vec!["children_ix"]);
}

#[test]
fn self_reference_without_cascade_blocks_delete() {
    let mut s = Store::new();
    s.create_table(TableDef {
        name: named("projects"),
        cols: vec![plain("id", true), with_fk("parent", "projects", false)],
    })
    .expect("table creates");
    s.insert_row(&named("projects"), vec![Value::IntVal(1), Value::NullVal])
        .expect("parent inserts");
    s.insert_row(&named("projects"), vec![Value::IntVal(2), Value::IntVal(1)])
        .expect("child inserts");
    assert_eq!(
        s.delete_where(&named("projects"), &Value::IntVal(1)),
        Err(StoreError::FkViolation)
    );
    // the leaf itself deletes fine
    s.delete_where(&named("projects"), &Value::IntVal(2)).expect("leaf deletes");
    s.delete_where(&named("projects"), &Value::IntVal(1)).expect("then the root");
    assert!(s.tables[0].rows.is_empty());
}
