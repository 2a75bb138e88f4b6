//! The application's own migration history: nine versions, from the first
//! two tables to the project-type column. Each body is the append-only
//! record of one schema change; structural changes the engine cannot make
//! in place (a column rename, a foreign-key policy change, a new
//! self-referencing column) go through the rebuild-table helper.

use vstd::prelude::*;
use crate::values::{Value, ValueModel};
use crate::schema::{ColumnDef, ColumnModel, FkModel, ForeignKey, TableDef, TableDefModel};
use crate::store::{CopyPair, CopyPairModel, RebuildPlan, RebuildPlanModel};
use crate::statement::{Statement, StatementModel, stmts_model};
use crate::catalog::{Direction, MigrationDescriptor, MigrationModel, migs_model, catalog_valid};

verus! {

/// A plain column, in the model.
pub open spec fn col_m(name: Seq<char>, not_null: bool) -> ColumnModel {
    ColumnModel { name, not_null, fk: Option::None }
}

/// A foreign-key column, in the model.
pub open spec fn fkcol_m(name: Seq<char>, not_null: bool, parent: Seq<char>, cascade: bool) -> ColumnModel {
    ColumnModel { name, not_null, fk: Option::Some(FkModel { parent, cascade }) }
}

/// A copy pair, in the model.
pub open spec fn cp_m(to: Seq<char>, from: Seq<char>) -> CopyPairModel {
    CopyPairModel { to, from }
}

/// A forward migration, in the model.
pub open spec fn mig_m(version: u64, description: Seq<char>, body: Seq<StatementModel>) -> MigrationModel {
    MigrationModel { version, description, body, direction: Direction::Up }
}

/// Version 1: the two initial tables, entries under a cascading foreign
/// key to projects.
pub open spec fn hist_v1() -> MigrationModel {
    mig_m(1, "create_initial_tables"@, seq![
        StatementModel::CreateTable(TableDefModel {
            name: "projects"@,
            cols: seq![col_m("id"@, true), col_m("name"@, true)],
        }),
        StatementModel::CreateTable(TableDefModel {
            name: "entries"@,
            cols: seq![
                col_m("id"@, true),
                col_m("date"@, true),
                col_m("content"@, false),
                fkcol_m("project_id"@, true, "projects"@, true),
            ],
        }),
    ])
}

/// Version 2: entries gains a nullable date_updated column.
pub open spec fn hist_v2() -> MigrationModel {
    mig_m(2, "add_date_updated"@, seq![
        StatementModel::AddColumn { table: "entries"@, column: col_m("date_updated"@, false) },
    ])
}

/// Version 3: the rebuild that renames entries.date to date_created,
/// carrying every other column over.
pub open spec fn hist_v3() -> MigrationModel {
    mig_m(3, "rename_date_created"@, seq![
        StatementModel::Rebuild(RebuildPlanModel {
            target: "entries"@,
            def: TableDefModel {
                name: "entries_dg_tmp"@,
                cols: seq![
                    col_m("id"@, true),
                    col_m("date_created"@, true),
                    col_m("content"@, false),
                    fkcol_m("project_id"@, true, "projects"@, true),
                    col_m("date_updated"@, false),
                ],
            },
            copy: seq![
                cp_m("id"@, "id"@),
                cp_m("date_created"@, "date"@),
                cp_m("content"@, "content"@),
                cp_m("project_id"@, "project_id"@),
                cp_m("date_updated"@, "date_updated"@),
            ],
        }),
    ])
}

/// Version 4: the settings table and its key index.
pub open spec fn hist_v4() -> MigrationModel {
    mig_m(4, "add_settings_table"@, seq![
        StatementModel::CreateTable(TableDefModel {
            name: "settings"@,
            cols: seq![col_m("key"@, true), col_m("value"@, false)],
        }),
        StatementModel::CreateIndex { name: "settings_key_index"@, table: "settings"@ },
    ])
}

/// Version 5: the status table, cascading on project deletion.
pub open spec fn hist_v5() -> MigrationModel {
    mig_m(5, "add_status_table"@, seq![
        StatementModel::CreateTable(TableDefModel {
            name: "status"@,
            cols: seq![
                col_m("id"@, true),
                fkcol_m("project"@, false, "projects"@, true),
                col_m("progress"@, false),
                col_m("start_date"@, true),
                col_m("end_date"@, true),
            ],
        }),
    ])
}

/// Version 6: the status rebuild that renames project to project_id and
/// adds date_created, which starts null because it is not copied.
pub open spec fn hist_v6() -> MigrationModel {
    mig_m(6, "update_status_table"@, seq![
        StatementModel::Rebuild(RebuildPlanModel {
            target: "status"@,
            def: TableDefModel {
                name: "status_dg_tmp"@,
                cols: seq![
                    col_m("id"@, true),
                    fkcol_m("project_id"@, false, "projects"@, true),
                    col_m("progress"@, false),
                    col_m("start_date"@, true),
                    col_m("end_date"@, true),
                    col_m("date_created"@, true),
                ],
            },
            copy: seq![
                cp_m("id"@, "id"@),
                cp_m("project_id"@, "project"@),
                cp_m("progress"@, "progress"@),
                cp_m("start_date"@, "start_date"@),
                cp_m("end_date"@, "end_date"@),
            ],
        }),
    ])
}

/// Version 7: both status and entries rebuilt so their foreign keys no
/// longer cascade, every column copied.
pub open spec fn hist_v7() -> MigrationModel {
    mig_m(7, "dont_cascade_delete"@, seq![
        StatementModel::Rebuild(RebuildPlanModel {
            target: "status"@,
            def: TableDefModel {
                name: "status_dg_tmp"@,
                cols: seq![
                    col_m("id"@, true),
                    fkcol_m("project_id"@, false, "projects"@, false),
                    col_m("progress"@, false),
                    col_m("start_date"@, true),
                    col_m("end_date"@, true),
                    col_m("date_created"@, true),
                ],
            },
            copy: seq![
                cp_m("id"@, "id"@),
                cp_m("project_id"@, "project_id"@),
                cp_m("progress"@, "progress"@),
                cp_m("start_date"@, "start_date"@),
                cp_m("end_date"@, "end_date"@),
                cp_m("date_created"@, "date_created"@),
            ],
        }),
        StatementModel::Rebuild(RebuildPlanModel {
            target: "entries"@,
            def: TableDefModel {
                name: "entries_dg_tmp"@,
                cols: seq![
                    col_m("id"@, true),
                    col_m("date_created"@, true),
                    col_m("content"@, false),
                    fkcol_m("project_id"@, true, "projects"@, false),
                    col_m("date_updated"@, false),
                ],
            },
            copy: seq![
                cp_m("id"@, "id"@),
                cp_m("date_created"@, "date_created"@),
                cp_m("content"@, "content"@),
                cp_m("project_id"@, "project_id"@),
                cp_m("date_updated"@, "date_updated"@),
            ],
        }),
    ])
}

/// Version 8: the projects rebuild that adds the nullable
/// self-referencing parent column; integrity checking is suspended and
/// re-validated inside the rebuild.
pub open spec fn hist_v8() -> MigrationModel {
    mig_m(8, "add_project_parent"@, seq![
        StatementModel::Rebuild(RebuildPlanModel {
            target: "projects"@,
            def: TableDefModel {
                name: "projects_dg_tmp"@,
                cols: seq![
                    col_m("id"@, true),
                    col_m("name"@, true),
                    fkcol_m("parent"@, false, "projects"@, false),
                ],
            },
            copy: seq![cp_m("id"@, "id"@), cp_m("name"@, "name"@)],
        }),
    ])
}

/// Version 9: the nullable type column, backfilled by whether parent is
/// null.
pub open spec fn hist_v9() -> MigrationModel {
    mig_m(9, "add_project_type_column"@, seq![
        StatementModel::AddColumn { table: "projects"@, column: col_m("type"@, false) },
        StatementModel::UpdateWhereNull {
            table: "projects"@,
            set_col: "type"@,
            value: ValueModel::TextVal("project"@),
            where_col: "parent"@,
            want_null: true,
        },
        StatementModel::UpdateWhereNull {
            table: "projects"@,
            set_col: "type"@,
            value: ValueModel::TextVal("task"@),
            where_col: "parent"@,
            want_null: false,
        },
    ])
}

/// The whole migration history, as a value: nine versions, in order.
pub open spec fn history() -> Seq<MigrationModel> {
    seq![
        hist_v1(), hist_v2(), hist_v3(), hist_v4(), hist_v5(), hist_v6(), hist_v7(),
        hist_v8(), hist_v9(),
    ]
}

/// A plain column.
fn tcol(name: &str, not_null: bool) -> (c: ColumnDef)
    ensures
        c@.name == name@,
        c@.not_null == not_null,
        c@.fk is None,
{
    ColumnDef { name: name.to_owned(), not_null, fk: Option::None }
}

/// A column under a foreign key to `parent`'s key column.
fn fkcol(name: &str, not_null: bool, parent: &str, cascade: bool) -> (c: ColumnDef)
    ensures
        c@.name == name@,
        c@.not_null == not_null,
        c@.fk == Option::Some(crate::schema::FkModel { parent: parent@, cascade }),
{
    ColumnDef {
        name: name.to_owned(),
        not_null,
        fk: Option::Some(ForeignKey { parent: parent.to_owned(), cascade }),
    }
}

/// A copy pair of a rebuild.
fn cp(to: &str, from: &str) -> (p: CopyPair)
    ensures
        p@.to == to@,
        p@.from == from@,
{
    CopyPair { to: to.to_owned(), from: from.to_owned() }
}

/// One forward migration.
fn mig(version: u64, description: &str, body: Vec<Statement>) -> (m: MigrationDescriptor)
    ensures
        m@ == (MigrationModel {
            version,
            description: description@,
            body: stmts_model(body@),
            direction: Direction::Up,
        }),
{
    MigrationDescriptor {
        version,
        description: description.to_owned(),
        body,
        direction: Direction::Up,
    }
}

/// The full ordered migration history. `Catalog::load` accepts it: the
/// versions run 1 through 9, strictly ascending.
pub fn migrations() -> (r: Vec<MigrationDescriptor>)
    ensures
        migs_model(r@) == history(),
        r@.len() == 9,
        forall|i: int| 0 <= i < 9 ==> (#[trigger] migs_model(r@)[i]).version == i + 1,
        catalog_valid(migs_model(r@)),
{
    let migration = mig(1, "create_initial_tables", vec![
        Statement::CreateTable(TableDef {
            name: "projects".to_owned(),
            cols: vec![tcol("id", true), tcol("name", true)],
        }),
        Statement::CreateTable(TableDef {
            name: "entries".to_owned(),
            cols: vec![
                tcol("id", true),
                tcol("date", true),
                tcol("content", false),
                fkcol("project_id", true, "projects", true),
            ],
        }),
    ]);

    let m2 = mig(2, "add_date_updated", vec![
        Statement::AddColumn { table: "entries".to_owned(), column: tcol("date_updated", false) },
    ]);

    let m3 = mig(3, "rename_date_created", vec![
        Statement::Rebuild(RebuildPlan {
            target: "entries".to_owned(),
            def: TableDef {
                name: "entries_dg_tmp".to_owned(),
                cols: vec![
                    tcol("id", true),
                    tcol("date_created", true),
                    tcol("content", false),
                    fkcol("project_id", true, "projects", true),
                    tcol("date_updated", false),
                ],
            },
            copy: vec![
                cp("id", "id"),
                cp("date_created", "date"),
                cp("content", "content"),
                cp("project_id", "project_id"),
                cp("date_updated", "date_updated"),
            ],
        }),
    ]);

    let m4 = mig(4, "add_settings_table", vec![
        Statement::CreateTable(TableDef {
            name: "settings".to_owned(),
            cols: vec![tcol("key", true), tcol("value", false)],
        }),
        Statement::CreateIndex { name: "settings_key_index".to_owned(), table: "settings".to_owned() },
    ]);

    let m5 = mig(5, "add_status_table", vec![
        Statement::CreateTable(TableDef {
            name: "status".to_owned(),
            cols: vec![
                tcol("id", true),
                fkcol("project", false, "projects", true),
                tcol("progress", false),
                tcol("start_date", true),
                tcol("end_date", true),
            ],
        }),
    ]);

    let m6 = mig(6, "update_status_table", vec![
        Statement::Rebuild(RebuildPlan {
            target: "status".to_owned(),
            def: TableDef {
                name: "status_dg_tmp".to_owned(),
                cols: vec![
                    tcol("id", true),
                    fkcol("project_id", false, "projects", true),
                    tcol("progress", false),
                    tcol("start_date", true),
                    tcol("end_date", true),
                    tcol("date_created", true),
                ],
            },
            copy: vec![
                cp("id", "id"),
                cp("project_id", "project"),
                cp("progress", "progress"),
                cp("start_date", "start_date"),
                cp("end_date", "end_date"),
            ],
        }),
    ]);

    let m7 = mig(7, "dont_cascade_delete", vec![
        Statement::Rebuild(RebuildPlan {
            target: "status".to_owned(),
            def: TableDef {
                name: "status_dg_tmp".to_owned(),
                cols: vec![
                    tcol("id", true),
                    fkcol("project_id", false, "projects", false),
                    tcol("progress", false),
                    tcol("start_date", true),
                    tcol("end_date", true),
                    tcol("date_created", true),
                ],
            },
            copy: vec![
                cp("id", "id"),
                cp("project_id", "project_id"),
                cp("progress", "progress"),
                cp("start_date", "start_date"),
                cp("end_date", "end_date"),
                cp("date_created", "date_created"),
            ],
        }),
        Statement::Rebuild(RebuildPlan {
            target: "entries".to_owned(),
            def: TableDef {
                name: "entries_dg_tmp".to_owned(),
                cols: vec![
                    tcol("id", true),
                    tcol("date_created", true),
                    tcol("content", false),
                    fkcol("project_id", true, "projects", false),
                    tcol("date_updated", false),
                ],
            },
            copy: vec![
                cp("id", "id"),
                cp("date_created", "date_created"),
                cp("content", "content"),
                cp("project_id", "project_id"),
                cp("date_updated", "date_updated"),
            ],
        }),
    ]);

    let m8 = mig(8, "add_project_parent", vec![
        Statement::Rebuild(RebuildPlan {
            target: "projects".to_owned(),
            def: TableDef {
                name: "projects_dg_tmp".to_owned(),
                cols: vec![
                    tcol("id", true),
                    tcol("name", true),
                    fkcol("parent", false, "projects", false),
                ],
            },
            copy: vec![cp("id", "id"), cp("name", "name")],
        }),
    ]);

    let m9 = mig(9, "add_project_type_column", vec![
        Statement::AddColumn { table: "projects".to_owned(), column: tcol("type", false) },
        Statement::UpdateWhereNull {
            table: "projects".to_owned(),
            set_col: "type".to_owned(),
            value: Value::TextVal("project".to_owned()),
            where_col: "parent".to_owned(),
            want_null: true,
        },
        Statement::UpdateWhereNull {
            table: "projects".to_owned(),
            set_col: "type".to_owned(),
            value: Value::TextVal("task".to_owned()),
            where_col: "parent".to_owned(),
            want_null: false,
        },
    ]);

    let r = vec![migration, m2, m3, m4, m5, m6, m7, m8, m9];
    proof {
        let mm = migs_model(r@);
        assert(mm[0] == r@[0]@ && mm[1] == r@[1]@ && mm[2] == r@[2]@ && mm[3] == r@[3]@
            && mm[4] == r@[4]@ && mm[5] == r@[5]@ && mm[6] == r@[6]@ && mm[7] == r@[7]@
            && mm[8] == r@[8]@);
        assert(mm[0] =~~= hist_v1());
        assert(mm[1] =~~= hist_v2());
        assert(mm[2] =~~= hist_v3());
        assert(mm[3] =~~= hist_v4());
        assert(mm[4] =~~= hist_v5());
        assert(mm[5] =~~= hist_v6());
        assert(mm[6] =~~= hist_v7());
        assert(mm[7] =~~= hist_v8());
        assert(mm[8] =~~= hist_v9());
        assert(mm =~= history());
        assert forall|i: int| 0 <= i < 9 implies (#[trigger] mm[i]).version == i + 1 by {
            assert(mm[i] == history()[i]);
        }
        assert(catalog_valid(mm));
    }
    r
}

} // verus!
