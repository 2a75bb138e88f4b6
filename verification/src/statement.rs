//! Migration statements and their execution, statement by statement.

use vstd::prelude::*;
use crate::values::{Value, ValueModel};
use crate::schema::{ColumnDef, ColumnModel, TableDef, TableDefModel, copy_column, copy_columns};
use crate::store::{
    Store, StoreModel, StoreError, RebuildPlan, RebuildPlanModel,
    create_table_spec, create_index_spec, add_column_spec, update_where_spec, rebuild_spec,
};

verus! {

/// One statement of a migration body.
#[derive(Debug, Clone, PartialEq, Eq)]
pub enum Statement {
    /// `CREATE TABLE`.
    CreateTable(TableDef),
    /// `CREATE INDEX name ON table`.
    CreateIndex { name: String, table: String },
    /// `ALTER TABLE table ADD column`.
    AddColumn { table: String, column: ColumnDef },
    /// `UPDATE table SET set_col = value WHERE where_col IS [NOT] NULL`.
    UpdateWhereNull { table: String, set_col: String, value: Value, where_col: String, want_null: bool },
    /// The shadow-table rebuild: create, copy, drop, rename, re-check.
    Rebuild(RebuildPlan),
}

/// Model of a statement.
#[verifier::ext_equal]
pub enum StatementModel {
    CreateTable(TableDefModel),
    CreateIndex { name: Seq<char>, table: Seq<char> },
    AddColumn { table: Seq<char>, column: ColumnModel },
    UpdateWhereNull { table: Seq<char>, set_col: Seq<char>, value: ValueModel, where_col: Seq<char>, want_null: bool },
    Rebuild(RebuildPlanModel),
}

impl View for Statement {
    type V = StatementModel;

    open spec fn view(&self) -> StatementModel {
        match self {
            Statement::CreateTable(d) => StatementModel::CreateTable(d@),
            Statement::CreateIndex { name, table } => StatementModel::CreateIndex {
                name: name@,
                table: table@,
            },
            Statement::AddColumn { table, column } => StatementModel::AddColumn {
                table: table@,
                column: column@,
            },
            Statement::UpdateWhereNull { table, set_col, value, where_col, want_null } =>
                StatementModel::UpdateWhereNull {
                    table: table@,
                    set_col: set_col@,
                    value: value@,
                    where_col: where_col@,
                    want_null: *want_null,
                },
            Statement::Rebuild(p) => StatementModel::Rebuild(p@),
        }
    }
}

/// Model of a statement list.
pub open spec fn stmts_model(body: Seq<Statement>) -> Seq<StatementModel> {
    body.map_values(|st: Statement| st@)
}

/// What one statement does to the store, or why it fails.
pub open spec fn apply_statement(s: StoreModel, st: StatementModel) -> Result<StoreModel, StoreError> {
    match st {
        StatementModel::CreateTable(d) => create_table_spec(s, d),
        StatementModel::CreateIndex { name, table } => create_index_spec(s, name, table),
        StatementModel::AddColumn { table, column } => add_column_spec(s, table, column),
        StatementModel::UpdateWhereNull { table, set_col, value, where_col, want_null } =>
            update_where_spec(s, table, set_col, value, where_col, want_null),
        StatementModel::Rebuild(p) => rebuild_spec(s, p),
    }
}

/// What a whole body does: its statements in order, stopping at the first
/// failure.
pub open spec fn run_body_spec(s: StoreModel, body: Seq<StatementModel>) -> Result<StoreModel, StoreError>
    decreases body.len(),
{
    if body.len() == 0 {
        Result::Ok(s)
    } else {
        match apply_statement(s, body[0]) {
            Result::Err(e) => Result::Err(e),
            Result::Ok(s2) => run_body_spec(s2, body.drop_first()),
        }
    }
}

/// No statement touches the ledger or the enforcement switch: a body only
/// reshapes tables and indexes.
pub proof fn lemma_run_body_frame(s: StoreModel, body: Seq<StatementModel>)
    ensures
        run_body_spec(s, body) is Ok ==> {
            let s2 = run_body_spec(s, body)->Ok_0;
            s2.ledger == s.ledger && s2.fk_on == s.fk_on
        },
    decreases body.len(),
{
    if body.len() == 0 {
    } else {
        match apply_statement(s, body[0]) {
            Result::Err(_) => {},
            Result::Ok(s2) => {
                assert(s2.ledger == s.ledger && s2.fk_on == s.fk_on);
                lemma_run_body_frame(s2, body.drop_first());
            },
        }
    }
}

/// Executes one statement against the store.
pub fn exec_statement(store: &mut Store, st: &Statement) -> (r: Result<(), StoreError>)
    ensures
        match r {
            Result::Ok(()) => apply_statement(old(store)@, st@)
                == Result::<StoreModel, StoreError>::Ok(final(store)@),
            Result::Err(e) => apply_statement(old(store)@, st@)
                == Result::<StoreModel, StoreError>::Err(e) && final(store)@ == old(store)@,
        },
{
    match st {
        Statement::CreateTable(d) => {
            let d2 = TableDef { name: d.name.clone(), cols: copy_columns(&d.cols) };
            proof {
                assert(d2@.cols =~= d@.cols);
            }
            store.create_table(d2)
        },
        Statement::CreateIndex { name, table } => {
            store.create_index(name.clone(), table.clone())
        },
        Statement::AddColumn { table, column } => {
            store.add_column(table, copy_column(column))
        },
        Statement::UpdateWhereNull { table, set_col, value, where_col, want_null } => {
            store.update_where(table, set_col, value, where_col, *want_null)
        },
        Statement::Rebuild(p) => {
            store.rebuild_table(p)
        },
    }
}

/// Executes a body in order, stopping at the first failure. On failure the
/// store may hold the effect of the statements before it; the runner's
/// transactional boundary restores its snapshot.
pub fn run_body(store: &mut Store, body: &Vec<Statement>) -> (r: Result<(), StoreError>)
    ensures
        match r {
            Result::Ok(()) => run_body_spec(old(store)@, stmts_model(body@))
                == Result::<StoreModel, StoreError>::Ok(final(store)@),
            Result::Err(e) => run_body_spec(old(store)@, stmts_model(body@))
                == Result::<StoreModel, StoreError>::Err(e),
        },
{
    let ghost bm = stmts_model(body@);
    proof {
        assert(bm.skip(0) =~= bm);
    }
    let mut i: usize = 0;
    while i < body.len()
        invariant
            i <= body@.len(),
            bm == stmts_model(body@),
            bm.len() == body@.len(),
            run_body_spec(old(store)@, bm) == run_body_spec(store@, bm.skip(i as int)),
        decreases body@.len() - i,
    {
        proof {
            assert(bm[i as int] == body@[i as int]@);
            assert(bm.skip(i as int)[0] == bm[i as int]);
            assert(bm.skip(i as int).drop_first() =~= bm.skip(i as int + 1));
        }
        match exec_statement(store, &body[i]) {
            Result::Err(e) => {
                return Result::Err(e);
            },
            Result::Ok(()) => {},
        }
        i += 1;
    }
    proof {
        assert(bm.skip(bm.len() as int) =~= Seq::<StatementModel>::empty());
    }
    Result::Ok(())
}

} // verus!
