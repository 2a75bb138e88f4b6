//! The embedded store, modelled as a plain value: tables with rows, named
//! indexes, the ledger of applied migration versions, and the foreign-key
//! enforcement switch.

use vstd::prelude::*;
use crate::values::{Value, ValueModel, value_eq, value_is_null, copy_value};
use crate::schema::{
    ForeignKey, FkModel, ColumnDef, ColumnModel, TableDef, TableDefModel, Table, TableModel,
    IndexDef, IndexModel, row_model, first_idx, lemma_first_idx, col_names,
    index_names, col_idx, table_idx, names_unique, find_col, find_table,
    copy_columns, copy_row,
};

verus! {

/// Why a statement was refused by the store.
#[derive(Debug, Clone, Copy, PartialEq, Eq, Structural)]
pub enum StoreError {
    /// A table of that name already exists.
    DuplicateTable,
    /// No table of that name exists.
    NoSuchTable,
    /// A column of that name already exists, or a definition repeats a name.
    DuplicateColumn,
    /// No column of that name exists.
    NoSuchColumn,
    /// An index of that name already exists.
    DuplicateIndex,
    /// A row would leave a non-nullable column null, or a column could not
    /// be added as non-nullable.
    NotNullViolation,
    /// A row repeats an existing key.
    DuplicateKey,
    /// A row has the wrong number of cells.
    ArityMismatch,
    /// A foreign-key constraint would be broken.
    FkViolation,
}

/// Model of the whole store. `ledger` is `None` until the ledger table has
/// been created by the runner's bootstrap step.
pub struct StoreModel {
    pub tables: Seq<TableModel>,
    pub indexes: Seq<IndexModel>,
    pub ledger: Option<Seq<u64>>,
    pub fk_on: bool,
}

/// The store itself.
#[derive(Debug, PartialEq, Eq)]
pub struct Store {
    pub tables: Vec<Table>,
    pub indexes: Vec<IndexDef>,
    pub ledger: Option<Vec<u64>>,
    pub fk_on: bool,
}

impl View for Store {
    type V = StoreModel;

    open spec fn view(&self) -> StoreModel {
        StoreModel {
            tables: self.tables@.map_values(|t: Table| t@),
            indexes: self.indexes@.map_values(|i: IndexDef| i@),
            ledger: match self.ledger {
                Option::Some(l) => Option::Some(l@),
                Option::None => Option::None,
            },
            fk_on: self.fk_on,
        }
    }
}

/// A cell satisfies a foreign key when it is null or matches the key (first
/// cell) of some row of the referenced table.
pub open spec fn fk_cell_ok(tables: Seq<TableModel>, f: FkModel, v: ValueModel) -> bool {
    v == ValueModel::NullVal || {
        let p = table_idx(tables, f.parent);
        &&& 0 <= p < tables.len()
        &&& exists|r: int|
            0 <= r < tables[p].rows.len() && (#[trigger] tables[p].rows[r]).len() > 0
                && tables[p].rows[r][0] == v
    }
}

/// Every foreign-key column of the row points at an existing parent key.
pub open spec fn row_fk_ok(tables: Seq<TableModel>, cols: Seq<ColumnModel>, row: Seq<ValueModel>) -> bool {
    forall|c: int|
        0 <= c < cols.len() && (#[trigger] cols[c]).fk is Some && c < row.len()
            ==> fk_cell_ok(tables, cols[c].fk->Some_0, row[c])
}

/// Referential integrity of the whole store: every row of every table
/// satisfies all its foreign keys.
pub open spec fn fk_consistent_tables(tables: Seq<TableModel>) -> bool {
    forall|t: int, r: int|
        0 <= t < tables.len() && 0 <= r < tables[t].rows.len()
            ==> row_fk_ok(tables, tables[t].cols, #[trigger] tables[t].rows[r])
}

/// Referential integrity of the whole store.
pub open spec fn fk_consistent(s: StoreModel) -> bool {
    fk_consistent_tables(s.tables)
}

/// Model of the tables of a store value.
pub open spec fn tables_model(tables: Seq<Table>) -> Seq<TableModel> {
    tables.map_values(|t: Table| t@)
}

/// Decides whether one cell satisfies one foreign key.
fn cell_fk_ok(tables: &Vec<Table>, f: &ForeignKey, v: &Value) -> (r: bool)
    ensures
        r == fk_cell_ok(tables_model(tables@), f@, v@),
{
    if value_is_null(v) {
        return true;
    }
    let ghost tm = tables_model(tables@);
    match find_table(tables, &f.parent) {
        Option::None => {
            false
        },
        Option::Some(p) => {
            let rows = &tables[p].rows;
            proof {
                assert(tm[p as int] == tables@[p as int]@);
            }
            let mut i: usize = 0;
            while i < rows.len()
                invariant
                    i <= rows@.len(),
                    tm == tables_model(tables@),
                    0 <= p < tables@.len(),
                    table_idx(tm, f@.parent) == p,
                    rows@.map_values(|r: Vec<Value>| row_model(r@)) == tm[p as int].rows,
                    forall|j: int|
                        0 <= j < i ==> !((#[trigger] tm[p as int].rows[j]).len() > 0
                            && tm[p as int].rows[j][0] == v@),
                decreases rows@.len() - i,
            {
                let row = &rows[i];
                proof {
                    assert(tm[p as int].rows[i as int] == row_model(row@));
                }
                if row.len() > 0 && value_eq(&row[0], v) {
                    return true;
                }
                i += 1;
            }
            false
        },
    }
}

/// Decides whether a row satisfies all foreign keys of its columns.
fn row_fk_check(tables: &Vec<Table>, cols: &Vec<ColumnDef>, row: &Vec<Value>) -> (r: bool)
    ensures
        r == row_fk_ok(tables_model(tables@), cols@.map_values(|c: ColumnDef| c@), row_model(row@)),
{
    let ghost tm = tables_model(tables@);
    let ghost cm = cols@.map_values(|c: ColumnDef| c@);
    let ghost rm = row_model(row@);
    let mut c: usize = 0;
    while c < cols.len()
        invariant
            c <= cols@.len(),
            tm == tables_model(tables@),
            cm == cols@.map_values(|x: ColumnDef| x@),
            rm == row_model(row@),
            cm.len() == cols@.len(),
            rm.len() == row@.len(),
            forall|j: int|
                0 <= j < c && (#[trigger] cm[j]).fk is Some && j < rm.len()
                    ==> fk_cell_ok(tm, cm[j].fk->Some_0, rm[j]),
        decreases cols@.len() - c,
    {
        proof {
            assert(cm[c as int] == cols@[c as int]@);
        }
        if c < row.len() {
            match &cols[c].fk {
                Option::Some(f) => {
                    proof {
                        assert(rm[c as int] == row@[c as int]@);
                    }
                    if !cell_fk_ok(tables, f, &row[c]) {
                        return false;
                    }
                },
                Option::None => {},
            }
        }
        c += 1;
    }
    true
}

impl Store {
    /// A brand-new, empty store: no tables, no indexes, no ledger yet,
    /// foreign-key enforcement on.
    pub fn new() -> (r: Store)
        ensures
            r@ == fresh_store(),
    {
        let r = Store { tables: Vec::new(), indexes: Vec::new(), ledger: Option::None, fk_on: true };
        proof {
            assert(r@.tables =~= fresh_store().tables);
            assert(r@.indexes =~= fresh_store().indexes);
        }
        r
    }

    /// Checks referential integrity of the whole store, as the engine's
    /// foreign-key check pragma does.
    pub fn foreign_key_check(&self) -> (r: bool)
        ensures
            r == fk_consistent(self@),
    {
        let ghost tm = tables_model(self.tables@);
        let mut t: usize = 0;
        while t < self.tables.len()
            invariant
                t <= self.tables@.len(),
                tm == tables_model(self.tables@),
                tm.len() == self.tables@.len(),
                forall|ti: int, r: int|
                    0 <= ti < t && 0 <= r < tm[ti].rows.len()
                        ==> row_fk_ok(tm, tm[ti].cols, #[trigger] tm[ti].rows[r]),
            decreases self.tables@.len() - t,
        {
            proof {
                assert(tm[t as int] == self.tables@[t as int]@);
            }
            let rows_len = self.tables[t].rows.len();
            let mut r: usize = 0;
            while r < rows_len
                invariant
                    r <= rows_len,
                    t < self.tables@.len(),
                    tm == tables_model(self.tables@),
                    tm.len() == self.tables@.len(),
                    tm[t as int] == self.tables@[t as int]@,
                    rows_len == tm[t as int].rows.len(),
                    forall|j: int|
                        0 <= j < r ==> row_fk_ok(tm, tm[t as int].cols, #[trigger] tm[t as int].rows[j]),
                decreases rows_len - r,
            {
                proof {
                    assert(tm[t as int].rows[r as int] == row_model(self.tables@[t as int].rows@[r as int]@));
                }
                if !row_fk_check(&self.tables, &self.tables[t].cols, &self.tables[t].rows[r]) {
                    return false;
                }
                r += 1;
            }
            t += 1;
        }
        true
    }

    /// Turns foreign-key enforcement on or off, as the engine pragma does.
    pub fn set_foreign_keys(&mut self, on: bool)
        ensures
            final(self)@ == (StoreModel { fk_on: on, ..old(self)@ }),
    {
        self.fk_on = on;
    }
}

/// The model of a brand-new store.
pub open spec fn fresh_store() -> StoreModel {
    StoreModel {
        tables: Seq::empty(),
        indexes: Seq::empty(),
        ledger: Option::None,
        fk_on: true,
    }
}

} // verus!

verus! {

/// Checks that the column names of a definition are distinct.
fn cols_unique(cols: &Vec<ColumnDef>) -> (r: bool)
    ensures
        r == names_unique(col_names(cols@.map_values(|c: ColumnDef| c@))),
{
    let ghost cm = cols@.map_values(|c: ColumnDef| c@);
    let mut i: usize = 0;
    while i < cols.len()
        invariant
            i <= cols@.len(),
            cm == cols@.map_values(|c: ColumnDef| c@),
            forall|a: int, b: int| 0 <= a < b < i ==> col_names(cm)[a] != col_names(cm)[b],
        decreases cols@.len() - i,
    {
        let mut j: usize = 0;
        while j < i
            invariant
                j <= i,
                i < cols@.len(),
                cm == cols@.map_values(|c: ColumnDef| c@),
                forall|a: int| 0 <= a < j ==> col_names(cm)[a] != col_names(cm)[i as int],
            decreases i - j,
        {
            if cols[j].name.eq(&cols[i].name) {
                proof {
                    assert(col_names(cm)[j as int] == cm[j as int].name);
                    assert(col_names(cm)[i as int] == cm[i as int].name);
                }
                return false;
            }
            proof {
                assert(col_names(cm)[j as int] == cm[j as int].name);
                assert(col_names(cm)[i as int] == cm[i as int].name);
            }
            j += 1;
        }
        i += 1;
    }
    true
}

/// Semantics of `CREATE TABLE`: refused when the name is taken or the
/// definition repeats a column name; otherwise the new table is appended,
/// empty.
pub open spec fn create_table_spec(s: StoreModel, d: TableDefModel) -> Result<StoreModel, StoreError> {
    if table_idx(s.tables, d.name) >= 0 {
        Result::Err(StoreError::DuplicateTable)
    } else if !names_unique(col_names(d.cols)) {
        Result::Err(StoreError::DuplicateColumn)
    } else {
        Result::Ok(StoreModel {
            tables: s.tables.push(TableModel { name: d.name, cols: d.cols, rows: Seq::empty() }),
            ..s
        })
    }
}

/// Semantics of `CREATE INDEX`: the table must exist and the index name
/// must be free.
pub open spec fn create_index_spec(s: StoreModel, name: Seq<char>, table: Seq<char>) -> Result<StoreModel, StoreError> {
    if table_idx(s.tables, table) < 0 {
        Result::Err(StoreError::NoSuchTable)
    } else if first_idx(index_names(s.indexes), name) >= 0 {
        Result::Err(StoreError::DuplicateIndex)
    } else {
        Result::Ok(StoreModel {
            indexes: s.indexes.push(IndexModel { name, table }),
            ..s
        })
    }
}

impl Store {
    /// Creates a table from its definition.
    pub fn create_table(&mut self, d: TableDef) -> (r: Result<(), StoreError>)
        ensures
            match r {
                Result::Ok(()) => create_table_spec(old(self)@, d@)
                    == Result::<StoreModel, StoreError>::Ok(final(self)@),
                Result::Err(e) => create_table_spec(old(self)@, d@)
                    == Result::<StoreModel, StoreError>::Err(e) && final(self)@ == old(self)@,
            },
    {
        if let Option::Some(_) = find_table(&self.tables, &d.name) {
            return Result::Err(StoreError::DuplicateTable);
        }
        if !cols_unique(&d.cols) {
            return Result::Err(StoreError::DuplicateColumn);
        }
        let tbl = Table { name: d.name, cols: d.cols, rows: Vec::new() };
        proof {
            assert(tbl@.rows =~= Seq::<Seq<ValueModel>>::empty());
        }
        let ghost old_tables = self.tables@;
        self.tables.push(tbl);
        proof {
            assert(self@.tables =~= old(self)@.tables.push(
                TableModel { name: d@.name, cols: d@.cols, rows: Seq::empty() }));
        }
        Result::Ok(())
    }

    /// Creates a named index over a table. The store records only its
    /// existence; lookups are not modelled.
    pub fn create_index(&mut self, name: String, table: String) -> (r: Result<(), StoreError>)
        ensures
            match r {
                Result::Ok(()) => create_index_spec(old(self)@, name@, table@)
                    == Result::<StoreModel, StoreError>::Ok(final(self)@),
                Result::Err(e) => create_index_spec(old(self)@, name@, table@)
                    == Result::<StoreModel, StoreError>::Err(e) && final(self)@ == old(self)@,
            },
    {
        let t_found = find_table(&self.tables, &table);
        if t_found.is_none() {
            return Result::Err(StoreError::NoSuchTable);
        }
        let ghost im = self@.indexes;
        proof {
            lemma_first_idx(index_names(im), name@);
        }
        let mut i: usize = 0;
        while i < self.indexes.len()
            invariant
                i <= self.indexes@.len(),
                im == self@.indexes,
                self == old(self),
                table_idx(old(self)@.tables, table@) >= 0,
                index_names(im).len() == self.indexes@.len(),
                forall|j: int| 0 <= j < i ==> index_names(im)[j] != name@,
            decreases self.indexes@.len() - i,
        {
            if self.indexes[i].name.eq(&name) {
                proof {
                    assert(im[i as int] == self.indexes@[i as int]@);
                    assert(index_names(im)[i as int] == im[i as int].name);
                    assert(index_names(im)[i as int] == name@);
                    lemma_first_idx(index_names(im), name@);
                    assert(first_idx(index_names(im), name@) >= 0);
                    assert(table_idx(old(self)@.tables, table@) >= 0);
                }
                return Result::Err(StoreError::DuplicateIndex);
            }
            proof {
                assert(index_names(im)[i as int] == im[i as int].name);
                assert(im[i as int] == self.indexes@[i as int]@);
            }
            i += 1;
        }
        proof {
            lemma_first_idx(index_names(im), name@);
        }
        let ghost nm = name@;
        let ghost tm = table@;
        self.indexes.push(IndexDef { name, table });
        proof {
            assert(self@.indexes =~= im.push(IndexModel { name: nm, table: tm }));
        }
        Result::Ok(())
    }
}

} // verus!

verus! {

/// Replacing an element by removing and reinserting at the same position
/// is the same as updating it in place.
pub proof fn lemma_remove_insert<A>(s: Seq<A>, i: int, x: A)
    requires
        0 <= i < s.len(),
    ensures
        s.remove(i).insert(i, x) == s.update(i, x),
{
    assert(s.remove(i).insert(i, x) =~= s.update(i, x));
}

/// Semantics of `ALTER TABLE ... ADD`: the table must exist, the column
/// name must be new, and the engine refuses a non-nullable column (it would
/// have no value for existing rows). Existing rows gain a null cell.
pub open spec fn add_column_spec(s: StoreModel, table: Seq<char>, c: ColumnModel) -> Result<StoreModel, StoreError> {
    let t = table_idx(s.tables, table);
    if t < 0 {
        Result::Err(StoreError::NoSuchTable)
    } else if col_idx(s.tables[t].cols, c.name) >= 0 {
        Result::Err(StoreError::DuplicateColumn)
    } else if c.not_null {
        Result::Err(StoreError::NotNullViolation)
    } else {
        let tb = s.tables[t];
        let nt = TableModel {
            name: tb.name,
            cols: tb.cols.push(c),
            rows: tb.rows.map_values(|r: Seq<ValueModel>| r.push(ValueModel::NullVal)),
        };
        Result::Ok(StoreModel { tables: s.tables.update(t, nt), ..s })
    }
}

/// One row under `UPDATE ... SET set = v WHERE w IS [NOT] NULL`.
pub open spec fn upd_row(r: Seq<ValueModel>, sc: int, wc: int, v: ValueModel, want_null: bool) -> Seq<ValueModel> {
    if 0 <= wc < r.len() && ((r[wc] == ValueModel::NullVal) == want_null) && 0 <= sc < r.len() {
        r.update(sc, v)
    } else {
        r
    }
}

/// Semantics of `UPDATE ... SET ... WHERE col IS [NOT] NULL`.
pub open spec fn update_where_spec(
    s: StoreModel,
    table: Seq<char>,
    set_col: Seq<char>,
    v: ValueModel,
    where_col: Seq<char>,
    want_null: bool,
) -> Result<StoreModel, StoreError> {
    let t = table_idx(s.tables, table);
    if t < 0 {
        Result::Err(StoreError::NoSuchTable)
    } else {
        let tb = s.tables[t];
        let sc = col_idx(tb.cols, set_col);
        let wc = col_idx(tb.cols, where_col);
        if sc < 0 || wc < 0 {
            Result::Err(StoreError::NoSuchColumn)
        } else {
            let nt = TableModel {
                name: tb.name,
                cols: tb.cols,
                rows: tb.rows.map_values(|r: Seq<ValueModel>| upd_row(r, sc, wc, v, want_null)),
            };
            Result::Ok(StoreModel { tables: s.tables.update(t, nt), ..s })
        }
    }
}

impl Store {
    /// Adds a nullable column at the end of a table; existing rows read
    /// null in it.
    pub fn add_column(&mut self, table: &String, col: ColumnDef) -> (r: Result<(), StoreError>)
        ensures
            match r {
                Result::Ok(()) => add_column_spec(old(self)@, table@, col@)
                    == Result::<StoreModel, StoreError>::Ok(final(self)@),
                Result::Err(e) => add_column_spec(old(self)@, table@, col@)
                    == Result::<StoreModel, StoreError>::Err(e) && final(self)@ == old(self)@,
            },
    {
        let t_found = find_table(&self.tables, table);
        let t = match t_found {
            Option::None => {
                return Result::Err(StoreError::NoSuchTable);
            },
            Option::Some(t) => t,
        };
        proof {
            assert(self@.tables[t as int] == self.tables@[t as int]@);
        }
        let dup = find_col(&self.tables[t].cols, &col.name);
        if dup.is_some() {
            return Result::Err(StoreError::DuplicateColumn);
        }
        if col.not_null {
            return Result::Err(StoreError::NotNullViolation);
        }
        let ghost cv = col@;
        let ghost old_tables = self@.tables;
        let ghost old_tb = self@.tables[t as int];
        let mut tb = self.tables.remove(t);
        tb.cols.push(col);
        let ghost rows0 = tb.rows@;
        let ghost tb0 = tb;
        let mut j: usize = 0;
        while j < tb.rows.len()
            invariant
                j <= tb.rows@.len(),
                tb.name == tb0.name,
                tb.cols == tb0.cols,
                tb.rows@.len() == rows0.len(),
                forall|k: int| 0 <= k < j ==> row_model((#[trigger] tb.rows@[k])@)
                    == row_model(rows0[k]@).push(ValueModel::NullVal),
                forall|k: int| j <= k < rows0.len() ==> #[trigger] tb.rows@[k] == rows0[k],
            decreases tb.rows@.len() - j,
        {
            let ghost pre = tb.rows@;
            let mut row = tb.rows.remove(j);
            row.push(Value::NullVal);
            tb.rows.insert(j, row);
            proof {
                lemma_remove_insert(pre, j as int, tb.rows@[j as int]);
            }
            j += 1;
        }
        let ghost tbv = tb@;
        self.tables.insert(t, tb);
        proof {
            lemma_remove_insert(old(self).tables@, t as int, self.tables@[t as int]);
            assert(self.tables@ =~= old(self).tables@.update(t as int, self.tables@[t as int]));
            let nt = TableModel {
                name: old_tb.name,
                cols: old_tb.cols.push(cv),
                rows: old_tb.rows.map_values(|r: Seq<ValueModel>| r.push(ValueModel::NullVal)),
            };
            assert(tbv.cols =~= nt.cols);
            assert forall|k: int| 0 <= k < tbv.rows.len() implies tbv.rows[k] == nt.rows[k] by {
                assert(old_tb.rows[k] == row_model(rows0[k]@));
            }
            assert(tbv.rows =~= nt.rows);
            assert(self@.tables =~= old_tables.update(t as int, nt));
        }
        Result::Ok(())
    }

    /// Sets one column to a constant on every row whose tested column is
    /// null (or not null, as asked).
    pub fn update_where(
        &mut self,
        table: &String,
        set_col: &String,
        v: &Value,
        where_col: &String,
        want_null: bool,
    ) -> (r: Result<(), StoreError>)
        ensures
            match r {
                Result::Ok(()) => update_where_spec(old(self)@, table@, set_col@, v@, where_col@, want_null)
                    == Result::<StoreModel, StoreError>::Ok(final(self)@),
                Result::Err(e) => update_where_spec(old(self)@, table@, set_col@, v@, where_col@, want_null)
                    == Result::<StoreModel, StoreError>::Err(e) && final(self)@ == old(self)@,
            },
    {
        let t_found = find_table(&self.tables, table);
        let t = match t_found {
            Option::None => {
                return Result::Err(StoreError::NoSuchTable);
            },
            Option::Some(t) => t,
        };
        proof {
            assert(self@.tables[t as int] == self.tables@[t as int]@);
        }
        let sc_found = find_col(&self.tables[t].cols, set_col);
        let wc_found = find_col(&self.tables[t].cols, where_col);
        let (sc, wc) = match (sc_found, wc_found) {
            (Option::Some(sc), Option::Some(wc)) => (sc, wc),
            _ => {
                return Result::Err(StoreError::NoSuchColumn);
            },
        };
        let ghost old_tables = self@.tables;
        let ghost old_tb = self@.tables[t as int];
        let ghost scv = sc as int;
        let ghost wcv = wc as int;
        let mut tb = self.tables.remove(t);
        let ghost rows0 = tb.rows@;
        let ghost tb0 = tb;
        let mut j: usize = 0;
        while j < tb.rows.len()
            invariant
                j <= tb.rows@.len(),
                tb.name == tb0.name,
                tb.cols == tb0.cols,
                scv == sc as int,
                wcv == wc as int,
                tb.rows@.len() == rows0.len(),
                forall|k: int| 0 <= k < j ==> row_model((#[trigger] tb.rows@[k])@)
                    == upd_row(row_model(rows0[k]@), scv, wcv, v@, want_null),
                forall|k: int| j <= k < rows0.len() ==> #[trigger] tb.rows@[k] == rows0[k],
            decreases tb.rows@.len() - j,
        {
            let ghost pre = tb.rows@;
            let mut row = tb.rows.remove(j);
            let ghost rowv = row_model(row@);
            if wc < row.len() && value_is_null(&row[wc]) == want_null && sc < row.len() {
                proof {
                    assert(0 <= scv < rowv.len());
                }
                row.set(sc, copy_value(v));
                proof {
                    assert forall|k: int| 0 <= k < rowv.len() implies row_model(row@)[k]
                        == rowv.update(scv, v@)[k] by {
                        if k == scv {
                            assert(row_model(row@)[k] == row@[k]@);
                        } else {
                            assert(row_model(row@)[k] == row@[k]@);
                        }
                    }
                    assert(row_model(row@) =~= rowv.update(scv, v@));
                }
            }
            tb.rows.insert(j, row);
            proof {
                lemma_remove_insert(pre, j as int, tb.rows@[j as int]);
                assert(rowv.len() == rows0[j as int]@.len());
            }
            j += 1;
        }
        let ghost tbv = tb@;
        self.tables.insert(t, tb);
        proof {
            lemma_remove_insert(old(self).tables@, t as int, self.tables@[t as int]);
            let nt = TableModel {
                name: old_tb.name,
                cols: old_tb.cols,
                rows: old_tb.rows.map_values(|r: Seq<ValueModel>| upd_row(r, scv, wcv, v@, want_null)),
            };
            assert forall|k: int| 0 <= k < tbv.rows.len() implies tbv.rows[k] == nt.rows[k] by {
                assert(old_tb.rows[k] == row_model(rows0[k]@));
            }
            assert(tbv.rows =~= nt.rows);
            assert(self@.tables =~= old_tables.update(t as int, nt));
        }
        Result::Ok(())
    }
}

} // verus!

verus! {

/// Semantics of inserting one row: the table must exist, the row must have
/// one cell per column, non-nullable columns must be filled, the key (first
/// cell) must be new, and, under enforcement, every foreign key must
/// resolve.
pub open spec fn insert_row_spec(s: StoreModel, table: Seq<char>, row: Seq<ValueModel>) -> Result<StoreModel, StoreError> {
    let t = table_idx(s.tables, table);
    if t < 0 {
        Result::Err(StoreError::NoSuchTable)
    } else {
        let tb = s.tables[t];
        if row.len() != tb.cols.len() {
            Result::Err(StoreError::ArityMismatch)
        } else if exists|c: int|
            0 <= c < tb.cols.len() && (#[trigger] tb.cols[c]).not_null && row[c] == ValueModel::NullVal {
            Result::Err(StoreError::NotNullViolation)
        } else if row.len() > 0 && exists|r: int|
            0 <= r < tb.rows.len() && (#[trigger] tb.rows[r]).len() > 0 && tb.rows[r][0] == row[0] {
            Result::Err(StoreError::DuplicateKey)
        } else if s.fk_on && !row_fk_ok(s.tables, tb.cols, row) {
            Result::Err(StoreError::FkViolation)
        } else {
            let nt = TableModel { name: tb.name, cols: tb.cols, rows: tb.rows.push(row) };
            Result::Ok(StoreModel { tables: s.tables.update(t, nt), ..s })
        }
    }
}

impl Store {
    /// Inserts one row into a table.
    pub fn insert_row(&mut self, table: &String, vals: Vec<Value>) -> (r: Result<(), StoreError>)
        ensures
            match r {
                Result::Ok(()) => insert_row_spec(old(self)@, table@, row_model(vals@))
                    == Result::<StoreModel, StoreError>::Ok(final(self)@),
                Result::Err(e) => insert_row_spec(old(self)@, table@, row_model(vals@))
                    == Result::<StoreModel, StoreError>::Err(e) && final(self)@ == old(self)@,
            },
    {
        let ghost rm = row_model(vals@);
        let t_found = find_table(&self.tables, table);
        let t = match t_found {
            Option::None => {
                return Result::Err(StoreError::NoSuchTable);
            },
            Option::Some(t) => t,
        };
        proof {
            assert(self@.tables[t as int] == self.tables@[t as int]@);
        }
        let ghost tbm = self@.tables[t as int];
        if vals.len() != self.tables[t].cols.len() {
            return Result::Err(StoreError::ArityMismatch);
        }
        let mut c: usize = 0;
        while c < vals.len()
            invariant
                c <= vals@.len(),
                self == old(self),
                rm == row_model(vals@),
                0 <= t < self@.tables.len(),
                table_idx(self@.tables, table@) == t,
                tbm == self@.tables[t as int],
                vals@.len() == tbm.cols.len(),
                forall|k: int| 0 <= k < c ==> !((#[trigger] tbm.cols[k]).not_null
                    && rm[k] == ValueModel::NullVal),
            decreases vals@.len() - c,
        {
            proof {
                assert(tbm.cols[c as int] == self.tables@[t as int].cols@[c as int]@);
                assert(rm[c as int] == vals@[c as int]@);
            }
            if self.tables[t].cols[c].not_null && value_is_null(&vals[c]) {
                return Result::Err(StoreError::NotNullViolation);
            }
            c += 1;
        }
        if vals.len() > 0 {
            let mut ri: usize = 0;
            let rows_len = self.tables[t].rows.len();
            while ri < rows_len
                invariant
                    ri <= rows_len,
                    self == old(self),
                    rm == row_model(vals@),
                    vals@.len() > 0,
                    rm.len() == vals@.len(),
                    0 <= t < self@.tables.len(),
                    table_idx(self@.tables, table@) == t,
                    tbm == self@.tables[t as int],
                    vals@.len() == tbm.cols.len(),
                    rows_len == tbm.rows.len(),
                    forall|k: int| 0 <= k < c ==> !((#[trigger] tbm.cols[k]).not_null
                        && rm[k] == ValueModel::NullVal),
                    c == vals@.len(),
                    forall|k: int| 0 <= k < ri ==> !((#[trigger] tbm.rows[k]).len() > 0
                        && tbm.rows[k][0] == rm[0]),
                decreases rows_len - ri,
            {
                proof {
                    assert(tbm.rows[ri as int] == row_model(self.tables@[t as int].rows@[ri as int]@));
                    assert(rm[0] == vals@[0]@);
                }
                let row = &self.tables[t].rows[ri];
                if row.len() > 0 && value_eq(&row[0], &vals[0]) {
                    return Result::Err(StoreError::DuplicateKey);
                }
                ri += 1;
            }
        }
        if self.fk_on {
            if !row_fk_check(&self.tables, &self.tables[t].cols, &vals) {
                proof {
                    assert(self@.tables[t as int].cols
                        == self.tables@[t as int].cols@.map_values(|x: ColumnDef| x@));
                }
                return Result::Err(StoreError::FkViolation);
            }
            proof {
                assert(self@.tables[t as int].cols
                    == self.tables@[t as int].cols@.map_values(|x: ColumnDef| x@));
            }
        }
        let ghost old_tables = self@.tables;
        let mut tb = self.tables.remove(t);
        tb.rows.push(vals);
        let ghost tbv = tb@;
        self.tables.insert(t, tb);
        proof {
            lemma_remove_insert(old(self).tables@, t as int, self.tables@[t as int]);
            let nt = TableModel { name: tbm.name, cols: tbm.cols, rows: tbm.rows.push(rm) };
            assert(tbv.rows =~= nt.rows);
            assert(self@.tables =~= old_tables.update(t as int, nt));
        }
        Result::Ok(())
    }
}

} // verus!

verus! {

/// The row references the deleted key through a cascading foreign key to
/// the target table, so the delete carries it away.
pub open spec fn row_cascade_hit(cols: Seq<ColumnModel>, target: Seq<char>, key: ValueModel, row: Seq<ValueModel>) -> bool {
    exists|c: int|
        0 <= c < cols.len() && (#[trigger] cols[c]).fk is Some
            && cols[c].fk->Some_0.parent == target && cols[c].fk->Some_0.cascade
            && c < row.len() && row[c] == key
}

/// The row references the deleted key through a non-cascading foreign key
/// to the target table, which blocks the delete.
pub open spec fn row_restrict_hit(cols: Seq<ColumnModel>, target: Seq<char>, key: ValueModel, row: Seq<ValueModel>) -> bool {
    exists|c: int|
        0 <= c < cols.len() && (#[trigger] cols[c]).fk is Some
            && cols[c].fk->Some_0.parent == target && !cols[c].fk->Some_0.cascade
            && c < row.len() && row[c] == key
}

/// The row disappears with the delete: it is a matching row of the target
/// table itself (index `t`), or a cascading dependent of the deleted key.
pub open spec fn row_purged(t: int, j: int, cols: Seq<ColumnModel>, target: Seq<char>, key: ValueModel, row: Seq<ValueModel>) -> bool {
    (j == t && row.len() > 0 && row[0] == key) || row_cascade_hit(cols, target, key, row)
}

/// The rows a table keeps through the delete, in their original order.
pub open spec fn kept_rows(rows: Seq<Seq<ValueModel>>, t: int, j: int, cols: Seq<ColumnModel>, target: Seq<char>, key: ValueModel) -> Seq<Seq<ValueModel>>
    decreases rows.len(),
{
    if rows.len() == 0 {
        Seq::empty()
    } else {
        let rest = kept_rows(rows.drop_last(), t, j, cols, target, key);
        if row_purged(t, j, cols, target, key, rows.last()) {
            rest
        } else {
            rest.push(rows.last())
        }
    }
}

/// Appending a row before the delete keeps it exactly when it is not
/// purged.
pub proof fn lemma_kept_rows_push(rows: Seq<Seq<ValueModel>>, t: int, j: int, cols: Seq<ColumnModel>, target: Seq<char>, key: ValueModel, x: Seq<ValueModel>)
    ensures
        kept_rows(rows.push(x), t, j, cols, target, key) == if row_purged(t, j, cols, target, key, x) {
            kept_rows(rows, t, j, cols, target, key)
        } else {
            kept_rows(rows, t, j, cols, target, key).push(x)
        },
{
    assert(rows.push(x).drop_last() =~= rows);
    assert(rows.push(x).last() == x);
}

/// All tables after the delete: each keeps the rows the delete does not
/// purge.
pub open spec fn delete_tables(tables: Seq<TableModel>, t: int, target: Seq<char>, key: ValueModel) -> Seq<TableModel> {
    Seq::new(tables.len(), |j: int| TableModel {
        name: tables[j].name,
        cols: tables[j].cols,
        rows: kept_rows(tables[j].rows, t, j, tables[j].cols, target, key),
    })
}

/// The key occurs in the table.
pub open spec fn key_in_table(tb: TableModel, key: ValueModel) -> bool {
    exists|r: int| 0 <= r < tb.rows.len() && (#[trigger] tb.rows[r]).len() > 0 && tb.rows[r][0] == key
}

/// Some surviving row still references the deleted key through a
/// non-cascading foreign key.
pub open spec fn delete_blocked(tables: Seq<TableModel>, t: int, target: Seq<char>, key: ValueModel) -> bool {
    exists|j: int, ri: int|
        0 <= j < tables.len() && 0 <= ri < tables[j].rows.len()
            && !row_purged(t, j, tables[j].cols, target, key, #[trigger] tables[j].rows[ri])
            && row_restrict_hit(tables[j].cols, target, key, tables[j].rows[ri])
}

/// Semantics of deleting by key: matching rows of the target table go,
/// cascading dependents go with them, and, under enforcement, a surviving
/// non-cascading reference to a key that was present makes the whole
/// delete fail with no change. The cascade reaches one level: dependents
/// of the deleted key. On a store whose referential integrity holds that
/// is the whole cascade unless a cascading dependent is itself the parent
/// of further cascading rows, a chain no table of this schema forms.
pub open spec fn delete_where_spec(s: StoreModel, table: Seq<char>, key: ValueModel) -> Result<StoreModel, StoreError> {
    let t = table_idx(s.tables, table);
    if t < 0 {
        Result::Err(StoreError::NoSuchTable)
    } else if s.fk_on && key_in_table(s.tables[t], key) && delete_blocked(s.tables, t, table, key) {
        Result::Err(StoreError::FkViolation)
    } else {
        Result::Ok(StoreModel { tables: delete_tables(s.tables, t, table, key), ..s })
    }
}

/// Decides whether a row is carried away by a cascading reference.
fn cascade_hit_check(cols: &Vec<ColumnDef>, target: &String, key: &Value, row: &Vec<Value>) -> (r: bool)
    ensures
        r == row_cascade_hit(cols@.map_values(|c: ColumnDef| c@), target@, key@, row_model(row@)),
{
    let ghost cm = cols@.map_values(|c: ColumnDef| c@);
    let ghost rm = row_model(row@);
    let mut c: usize = 0;
    while c < cols.len()
        invariant
            c <= cols@.len(),
            cm == cols@.map_values(|x: ColumnDef| x@),
            rm == row_model(row@),
            cm.len() == cols@.len(),
            rm.len() == row@.len(),
            forall|k: int| 0 <= k < c ==> !((#[trigger] cm[k]).fk is Some
                && cm[k].fk->Some_0.parent == target@ && cm[k].fk->Some_0.cascade
                && k < rm.len() && rm[k] == key@),
        decreases cols@.len() - c,
    {
        proof {
            assert(cm[c as int] == cols@[c as int]@);
        }
        match &cols[c].fk {
            Option::Some(f) => {
                if f.parent.eq(target) && f.cascade && c < row.len() {
                    proof {
                        assert(rm[c as int] == row@[c as int]@);
                    }
                    if value_eq(&row[c], key) {
                        return true;
                    }
                }
            },
            Option::None => {},
        }
        c += 1;
    }
    false
}

/// Decides whether a row blocks the delete through a non-cascading
/// reference.
fn restrict_hit_check(cols: &Vec<ColumnDef>, target: &String, key: &Value, row: &Vec<Value>) -> (r: bool)
    ensures
        r == row_restrict_hit(cols@.map_values(|c: ColumnDef| c@), target@, key@, row_model(row@)),
{
    let ghost cm = cols@.map_values(|c: ColumnDef| c@);
    let ghost rm = row_model(row@);
    let mut c: usize = 0;
    while c < cols.len()
        invariant
            c <= cols@.len(),
            cm == cols@.map_values(|x: ColumnDef| x@),
            rm == row_model(row@),
            cm.len() == cols@.len(),
            rm.len() == row@.len(),
            forall|k: int| 0 <= k < c ==> !((#[trigger] cm[k]).fk is Some
                && cm[k].fk->Some_0.parent == target@ && !cm[k].fk->Some_0.cascade
                && k < rm.len() && rm[k] == key@),
        decreases cols@.len() - c,
    {
        proof {
            assert(cm[c as int] == cols@[c as int]@);
        }
        match &cols[c].fk {
            Option::Some(f) => {
                if f.parent.eq(target) && !f.cascade && c < row.len() {
                    proof {
                        assert(rm[c as int] == row@[c as int]@);
                    }
                    if value_eq(&row[c], key) {
                        return true;
                    }
                }
            },
            Option::None => {},
        }
        c += 1;
    }
    false
}

/// Decides whether a row is purged by the delete.
fn purged_check(is_target: bool, cols: &Vec<ColumnDef>, target: &String, key: &Value, row: &Vec<Value>, Ghost(t): Ghost<int>, Ghost(j): Ghost<int>) -> (r: bool)
    requires
        is_target == (j == t),
    ensures
        r == row_purged(t, j, cols@.map_values(|c: ColumnDef| c@), target@, key@, row_model(row@)),
{
    if is_target && row.len() > 0 {
        proof {
            assert(row_model(row@)[0] == row@[0]@);
        }
        if value_eq(&row[0], key) {
            return true;
        }
    }
    cascade_hit_check(cols, target, key, row)
}

} // verus!

verus! {

impl Store {
    /// Deletes the rows of a table whose key (first cell) equals `key`,
    /// carrying cascading dependents away; a surviving non-cascading
    /// reference to the key makes the delete fail under enforcement.
    pub fn delete_where(&mut self, table: &String, key: &Value) -> (r: Result<(), StoreError>)
        ensures
            match r {
                Result::Ok(()) => delete_where_spec(old(self)@, table@, key@)
                    == Result::<StoreModel, StoreError>::Ok(final(self)@),
                Result::Err(e) => delete_where_spec(old(self)@, table@, key@)
                    == Result::<StoreModel, StoreError>::Err(e) && final(self)@ == old(self)@,
            },
    {
        let ghost sm = self@;
        let t_found = find_table(&self.tables, table);
        let t = match t_found {
            Option::None => {
                return Result::Err(StoreError::NoSuchTable);
            },
            Option::Some(t) => t,
        };
        proof {
            assert(self@.tables[t as int] == self.tables@[t as int]@);
        }
        let ghost tbm = self@.tables[t as int];
        if self.fk_on {
            let mut present = false;
            let rows_len = self.tables[t].rows.len();
            let mut ri: usize = 0;
            while ri < rows_len
                invariant
                    ri <= rows_len,
                    self == old(self),
                    sm == self@,
                    0 <= t < self@.tables.len(),
                    tbm == self@.tables[t as int],
                    rows_len == tbm.rows.len(),
                    present ==> key_in_table(tbm, key@),
                    !present ==> forall|k: int| 0 <= k < ri ==> !((#[trigger] tbm.rows[k]).len() > 0
                        && tbm.rows[k][0] == key@),
                decreases rows_len - ri,
            {
                proof {
                    assert(tbm.rows[ri as int] == row_model(self.tables@[t as int].rows@[ri as int]@));
                }
                let row = &self.tables[t].rows[ri];
                if row.len() > 0 && value_eq(&row[0], key) {
                    present = true;
                }
                ri += 1;
            }
            if present {
                let mut j: usize = 0;
                while j < self.tables.len()
                    invariant
                        j <= self.tables@.len(),
                        self == old(self),
                        sm == self@,
                        self.fk_on,
                        0 <= t < self@.tables.len(),
                        table_idx(self@.tables, table@) == t,
                        tbm == self@.tables[t as int],
                        key_in_table(tbm, key@),
                        forall|jj: int, k: int| 0 <= jj < j && 0 <= k < self@.tables[jj].rows.len()
                            ==> !(!row_purged(t as int, jj, self@.tables[jj].cols, table@, key@,
                                    #[trigger] self@.tables[jj].rows[k])
                                && row_restrict_hit(self@.tables[jj].cols, table@, key@,
                                    self@.tables[jj].rows[k])),
                    decreases self.tables@.len() - j,
                {
                    let is_target = j == t;
                    let rlen = self.tables[j].rows.len();
                    let mut k: usize = 0;
                    while k < rlen
                        invariant
                            k <= rlen,
                            self == old(self),
                            sm == self@,
                            0 <= t < self@.tables.len(),
                            0 <= j < self@.tables.len(),
                            is_target == (j == t),
                            self.fk_on,
                            table_idx(self@.tables, table@) == t,
                            tbm == self@.tables[t as int],
                            key_in_table(tbm, key@),
                            rlen == self@.tables[j as int].rows.len(),
                            forall|kk: int| 0 <= kk < k
                                ==> !(!row_purged(t as int, j as int, self@.tables[j as int].cols, table@, key@,
                                        #[trigger] self@.tables[j as int].rows[kk])
                                    && row_restrict_hit(self@.tables[j as int].cols, table@, key@,
                                        self@.tables[j as int].rows[kk])),
                        decreases rlen - k,
                    {
                        proof {
                            assert(self@.tables[j as int] == self.tables@[j as int]@);
                            assert(self@.tables[j as int].rows[k as int]
                                == row_model(self.tables@[j as int].rows@[k as int]@));
                            assert(self@.tables[j as int].cols
                                == self.tables@[j as int].cols@.map_values(|x: ColumnDef| x@));
                        }
                        let purged = purged_check(is_target, &self.tables[j].cols, table, key,
                            &self.tables[j].rows[k], Ghost(t as int), Ghost(j as int));
                        if !purged {
                            if restrict_hit_check(&self.tables[j].cols, table, key, &self.tables[j].rows[k]) {
                                proof {
                                    assert(0 <= j < sm.tables.len()
                                        && 0 <= k < sm.tables[j as int].rows.len());
                                    assert(!row_purged(t as int, j as int, sm.tables[j as int].cols,
                                        table@, key@, sm.tables[j as int].rows[k as int]));
                                    assert(row_restrict_hit(sm.tables[j as int].cols, table@, key@,
                                        sm.tables[j as int].rows[k as int]));
                                    assert(delete_blocked(sm.tables, t as int, table@, key@));
                                }
                                return Result::Err(StoreError::FkViolation);
                            }
                        }
                        k += 1;
                    }
                    j += 1;
                }
            }
        }
        proof {
            assert(!(sm.fk_on && key_in_table(sm.tables[t as int], key@)
                && delete_blocked(sm.tables, t as int, table@, key@)));
        }
        let ghost old_tables = self@.tables;
        let mut j: usize = 0;
        while j < self.tables.len()
            invariant
                j <= self.tables@.len(),
                self.tables@.len() == old_tables.len(),
                self@.indexes == sm.indexes,
                self@.ledger == sm.ledger,
                self@.fk_on == sm.fk_on,
                old_tables == sm.tables,
                0 <= t < old_tables.len(),
                forall|k: int| j <= k < old_tables.len() ==> #[trigger] self@.tables[k] == old_tables[k],
                forall|k: int| 0 <= k < j ==> #[trigger] self@.tables[k]
                    == delete_tables(old_tables, t as int, table@, key@)[k],
            decreases self.tables@.len() - j,
        {
            let is_target = j == t;
            let ghost pre_tables = self.tables@;
            let ghost pv = self@.tables;
            let mut tb = self.tables.remove(j);
            proof {
                assert(pv[j as int] == pre_tables[j as int]@);
                assert(old_tables[j as int] == pre_tables[j as int]@);
            }
            let ghost tb0 = tb;
            let ghost cmj = old_tables[j as int].cols;
            let ghost rm0 = old_tables[j as int].rows;
            let mut kept: Vec<Vec<Value>> = Vec::new();
            let mut i: usize = 0;
            while i < tb.rows.len()
                invariant
                    i <= tb.rows@.len(),
                    tb.name == tb0.name,
                    tb.cols == tb0.cols,
                    tb.rows == tb0.rows,
                    is_target == (j == t),
                    cmj == tb0@.cols,
                    rm0 == tb0@.rows,
                    rm0.len() == tb.rows@.len(),
                    kept@.map_values(|r: Vec<Value>| row_model(r@))
                        == kept_rows(rm0.take(i as int), t as int, j as int, cmj, table@, key@),
                decreases tb.rows@.len() - i,
            {
                proof {
                    assert(rm0[i as int] == row_model(tb.rows@[i as int]@));
                    assert(cmj == tb.cols@.map_values(|x: ColumnDef| x@));
                }
                let purged = purged_check(is_target, &tb.cols, table, key, &tb.rows[i],
                    Ghost(t as int), Ghost(j as int));
                let ghost kept_pre = kept@.map_values(|r: Vec<Value>| row_model(r@));
                if !purged {
                    kept.push(copy_row(&tb.rows[i]));
                }
                proof {
                    lemma_kept_rows_push(rm0.take(i as int), t as int, j as int, cmj, table@, key@,
                        rm0[i as int]);
                    assert(rm0.take(i as int + 1) =~= rm0.take(i as int).push(rm0[i as int]));
                    if !purged {
                        assert(kept@.map_values(|r: Vec<Value>| row_model(r@))
                            =~= kept_pre.push(rm0[i as int]));
                    }
                }
                i += 1;
            }
            proof {
                assert(rm0.take(rm0.len() as int) =~= rm0);
            }
            tb.rows = kept;
            let ghost tbv = tb@;
            self.tables.insert(j, tb);
            proof {
                lemma_remove_insert(pre_tables, j as int, self.tables@[j as int]);
                assert(self.tables@ =~= pre_tables.update(j as int, self.tables@[j as int]));
                let dt = delete_tables(old_tables, t as int, table@, key@)[j as int];
                assert(tbv.rows == dt.rows);
                assert(tbv == dt);
                assert forall|k: int| 0 <= k < j + 1 implies #[trigger] self@.tables[k]
                    == delete_tables(old_tables, t as int, table@, key@)[k] by {
                    assert(self@.tables[k] == self.tables@[k]@);
                    if k < j {
                        assert(self.tables@[k] == pre_tables[k]);
                        assert(pv[k] == pre_tables[k]@);
                    }
                }
                assert forall|k: int| j + 1 <= k < old_tables.len() implies #[trigger] self@.tables[k]
                    == old_tables[k] by {
                    assert(self@.tables[k] == self.tables@[k]@);
                    assert(self.tables@[k] == pre_tables[k]);
                    assert(pv[k] == pre_tables[k]@);
                }
            }
            j += 1;
        }
        proof {
            assert(self@.tables =~= delete_tables(old_tables, t as int, table@, key@));
        }
        Result::Ok(())
    }
}

} // verus!

verus! {

/// One column carried through a rebuild: the shadow column `to` reads the
/// original column `from`. A shadow column with no pair starts null.
#[derive(Debug, Clone, PartialEq, Eq)]
pub struct CopyPair {
    pub to: String,
    pub from: String,
}

/// Model of a copy pair.
#[verifier::ext_equal]
pub struct CopyPairModel {
    pub to: Seq<char>,
    pub from: Seq<char>,
}

impl View for CopyPair {
    type V = CopyPairModel;

    open spec fn view(&self) -> CopyPairModel {
        CopyPairModel { to: self.to@, from: self.from@ }
    }
}

/// A rebuild of `target`: create the shadow table `def`, copy the paired
/// columns over, drop the original, rename the shadow to `target`.
#[derive(Debug, Clone, PartialEq, Eq)]
pub struct RebuildPlan {
    pub target: String,
    pub def: TableDef,
    pub copy: Vec<CopyPair>,
}

/// Model of a rebuild.
#[verifier::ext_equal]
pub struct RebuildPlanModel {
    pub target: Seq<char>,
    pub def: TableDefModel,
    pub copy: Seq<CopyPairModel>,
}

impl View for RebuildPlan {
    type V = RebuildPlanModel;

    open spec fn view(&self) -> RebuildPlanModel {
        RebuildPlanModel {
            target: self.target@,
            def: self.def@,
            copy: self.copy@.map_values(|p: CopyPair| p@),
        }
    }
}

/// The destination names of the copy pairs, in order.
pub open spec fn copy_to_names(copy: Seq<CopyPairModel>) -> Seq<Seq<char>> {
    copy.map_values(|p: CopyPairModel| p.to)
}

/// The pair that fills a shadow column, or -1 if the column starts null.
pub open spec fn copy_src(copy: Seq<CopyPairModel>, name: Seq<char>) -> int {
    first_idx(copy_to_names(copy), name)
}

/// The value a shadow column reads from an original row.
pub open spec fn rebuilt_cell(old_cols: Seq<ColumnModel>, copy: Seq<CopyPairModel>, row: Seq<ValueModel>, colname: Seq<char>) -> ValueModel {
    let k = copy_src(copy, colname);
    if k < 0 {
        ValueModel::NullVal
    } else {
        let si = col_idx(old_cols, copy[k].from);
        if 0 <= si < row.len() {
            row[si]
        } else {
            ValueModel::NullVal
        }
    }
}

/// All rows after the rebuild: one per original row, each shadow column
/// reading its paired original column.
pub open spec fn rebuilt_rows(old_cols: Seq<ColumnModel>, copy: Seq<CopyPairModel>, rows: Seq<Seq<ValueModel>>, new_cols: Seq<ColumnModel>) -> Seq<Seq<ValueModel>> {
    rows.map_values(|r: Seq<ValueModel>| Seq::new(new_cols.len(), |j: int| rebuilt_cell(old_cols, copy, r, new_cols[j].name)))
}

/// The indexes that survive dropping a table.
pub open spec fn kept_indexes(idxs: Seq<IndexModel>, dropped: Seq<char>) -> Seq<IndexModel>
    decreases idxs.len(),
{
    if idxs.len() == 0 {
        Seq::empty()
    } else {
        let rest = kept_indexes(idxs.drop_last(), dropped);
        if idxs.last().table == dropped {
            rest
        } else {
            rest.push(idxs.last())
        }
    }
}

/// Appending an index before a drop keeps it exactly when it is not the
/// dropped table's.
pub proof fn lemma_kept_indexes_push(idxs: Seq<IndexModel>, dropped: Seq<char>, x: IndexModel)
    ensures
        kept_indexes(idxs.push(x), dropped) == if x.table == dropped {
            kept_indexes(idxs, dropped)
        } else {
            kept_indexes(idxs, dropped).push(x)
        },
{
    assert(idxs.push(x).drop_last() =~= idxs);
    assert(idxs.push(x).last() == x);
}

/// Semantics of the rebuild: the target must exist and the shadow name be
/// free; the shadow's columns must be distinct and every copy pair must
/// name a shadow column and an original column. The target is then
/// replaced in place by the shadow's shape with the copied rows, its
/// indexes are gone, and the rebuilt store must pass the foreign-key
/// check, else nothing changes. Foreign-key enforcement is suspended
/// inside the rebuild, so only that final check guards integrity.
pub open spec fn rebuild_spec(s: StoreModel, p: RebuildPlanModel) -> Result<StoreModel, StoreError> {
    let t = table_idx(s.tables, p.target);
    if t < 0 {
        Result::Err(StoreError::NoSuchTable)
    } else if table_idx(s.tables, p.def.name) >= 0 {
        Result::Err(StoreError::DuplicateTable)
    } else if !names_unique(col_names(p.def.cols)) {
        Result::Err(StoreError::DuplicateColumn)
    } else if !(forall|k: int| 0 <= k < p.copy.len()
        ==> col_idx(p.def.cols, (#[trigger] p.copy[k]).to) >= 0
            && col_idx(s.tables[t].cols, p.copy[k].from) >= 0) {
        Result::Err(StoreError::NoSuchColumn)
    } else {
        let tb = s.tables[t];
        let nt = TableModel {
            name: p.target,
            cols: p.def.cols,
            rows: rebuilt_rows(tb.cols, p.copy, tb.rows, p.def.cols),
        };
        let cand = StoreModel { tables: s.tables.update(t, nt), ..s };
        if !fk_consistent(cand) {
            Result::Err(StoreError::FkViolation)
        } else {
            Result::Ok(StoreModel { indexes: kept_indexes(cand.indexes, p.target), ..cand })
        }
    }
}

} // verus!

verus! {

impl Store {
    /// The rebuild-table helper: creates the shadow table, copies the
    /// paired columns row by row, drops the original, renames the shadow
    /// to the target, and re-validates referential integrity (enforcement
    /// is suspended across the intermediate states). On any failure the
    /// store is unchanged: no partial rename is ever visible.
    pub fn rebuild_table(&mut self, p: &RebuildPlan) -> (r: Result<(), StoreError>)
        ensures
            match r {
                Result::Ok(()) => rebuild_spec(old(self)@, p@)
                    == Result::<StoreModel, StoreError>::Ok(final(self)@),
                Result::Err(e) => rebuild_spec(old(self)@, p@)
                    == Result::<StoreModel, StoreError>::Err(e) && final(self)@ == old(self)@,
            },
    {
        let ghost sm = self@;
        let ghost pm = p@;
        let t_found = find_table(&self.tables, &p.target);
        let t = match t_found {
            Option::None => {
                return Result::Err(StoreError::NoSuchTable);
            },
            Option::Some(t) => t,
        };
        let shadow_found = find_table(&self.tables, &p.def.name);
        if shadow_found.is_some() {
            return Result::Err(StoreError::DuplicateTable);
        }
        if !cols_unique(&p.def.cols) {
            return Result::Err(StoreError::DuplicateColumn);
        }
        proof {
            assert(self@.tables[t as int] == self.tables@[t as int]@);
            assert(pm.def.cols == p.def.cols@.map_values(|c: ColumnDef| c@));
            assert(pm.copy == p.copy@.map_values(|c: CopyPair| c@));
        }
        let ghost tbm = self@.tables[t as int];
        let mut k: usize = 0;
        while k < p.copy.len()
            invariant
                k <= p.copy@.len(),
                self == old(self),
                sm == self@,
                pm == p@,
                0 <= t < self@.tables.len(),
                table_idx(self@.tables, pm.target) == t,
                tbm == self@.tables[t as int],
                table_idx(self@.tables, pm.def.name) == -1,
                names_unique(col_names(pm.def.cols)),
                pm.def.cols == p.def.cols@.map_values(|c: ColumnDef| c@),
                pm.copy.len() == p.copy@.len(),
                forall|kk: int| 0 <= kk < k ==> col_idx(pm.def.cols, (#[trigger] pm.copy[kk]).to) >= 0
                    && col_idx(tbm.cols, pm.copy[kk].from) >= 0,
            decreases p.copy@.len() - k,
        {
            proof {
                assert(pm.copy[k as int] == p.copy@[k as int]@);
            }
            let to_found = find_col(&p.def.cols, &p.copy[k].to);
            let from_found = find_col(&self.tables[t].cols, &p.copy[k].from);
            if to_found.is_none() || from_found.is_none() {
                proof {
                    assert(tbm.cols == self.tables@[t as int].cols@.map_values(|c: ColumnDef| c@));
                    assert(!(col_idx(pm.def.cols, pm.copy[k as int].to) >= 0
                        && col_idx(tbm.cols, pm.copy[k as int].from) >= 0));
                }
                return Result::Err(StoreError::NoSuchColumn);
            }
            k += 1;
        }
        // copy the rows into the shadow's shape
        let ghost new_rows_m = rebuilt_rows(tbm.cols, pm.copy, tbm.rows, pm.def.cols);
        let mut new_rows: Vec<Vec<Value>> = Vec::new();
        let rows_len = self.tables[t].rows.len();
        let cols_len = p.def.cols.len();
        let mut ri: usize = 0;
        while ri < rows_len
            invariant
                ri <= rows_len,
                self == old(self),
                sm == self@,
                pm == p@,
                0 <= t < self@.tables.len(),
                tbm == self@.tables[t as int],
                pm.def.cols == p.def.cols@.map_values(|c: ColumnDef| c@),
                rows_len == tbm.rows.len(),
                cols_len == pm.def.cols.len(),
                new_rows_m == rebuilt_rows(tbm.cols, pm.copy, tbm.rows, pm.def.cols),
                new_rows@.len() == ri,
                forall|x: int| 0 <= x < ri ==> row_model((#[trigger] new_rows@[x])@) == new_rows_m[x],
            decreases rows_len - ri,
        {
            proof {
                assert(tbm.rows[ri as int] == row_model(self.tables@[t as int].rows@[ri as int]@));
            }
            let mut new_row: Vec<Value> = Vec::new();
            let mut j: usize = 0;
            while j < cols_len
                invariant
                    j <= cols_len,
                    self == old(self),
                    sm == self@,
                    pm == p@,
                    0 <= t < self@.tables.len(),
                    ri < rows_len,
                    tbm == self@.tables[t as int],
                    pm.def.cols == p.def.cols@.map_values(|c: ColumnDef| c@),
                    rows_len == tbm.rows.len(),
                    cols_len == pm.def.cols.len(),
                    tbm.rows[ri as int] == row_model(self.tables@[t as int].rows@[ri as int]@),
                    new_row@.len() == j,
                    forall|x: int| 0 <= x < j ==> row_model(new_row@)[x]
                        == rebuilt_cell(tbm.cols, pm.copy, tbm.rows[ri as int], pm.def.cols[x].name),
                decreases cols_len - j,
            {
                proof {
                    assert(pm.def.cols[j as int] == p.def.cols@[j as int]@);
                }
                let ghost colname = pm.def.cols[j as int].name;
                let ghost pre_row = new_row@;
                // first pair that fills this shadow column
                let mut pk: usize = 0;
                let mut found: Option<usize> = Option::None;
                proof {
                    lemma_first_idx(copy_to_names(pm.copy), colname);
                }
                while pk < p.copy.len()
                    invariant
                        pk <= p.copy@.len(),
                        pm == p@,
                        pm.copy == p.copy@.map_values(|c: CopyPair| c@),
                        pm.copy.len() == p.copy@.len(),
                        pm.def.cols == p.def.cols@.map_values(|c: ColumnDef| c@),
                        0 <= j < pm.def.cols.len(),
                        cols_len == pm.def.cols.len(),
                        colname == pm.def.cols[j as int].name,
                        match found {
                            Option::Some(f) => f < pm.copy.len() && copy_src(pm.copy, colname) == f,
                            Option::None => forall|y: int| 0 <= y < pk
                                ==> copy_to_names(pm.copy)[y] != colname,
                        },
                        found is Some ==> pk >= p.copy@.len(),
                    decreases p.copy@.len() - pk + (if found is Some { 0int } else { 1int }),
                {
                    proof {
                        assert(pm.copy[pk as int] == p.copy@[pk as int]@);
                        assert(copy_to_names(pm.copy)[pk as int] == pm.copy[pk as int].to);
                    }
                    if p.copy[pk].to.eq(&p.def.cols[j].name) {
                        proof {
                            assert(pm.def.cols[j as int] == p.def.cols@[j as int]@);
                            lemma_first_idx(copy_to_names(pm.copy), colname);
                        }
                        found = Option::Some(pk);
                        pk = p.copy.len();
                    } else {
                        proof {
                            assert(pm.def.cols[j as int] == p.def.cols@[j as int]@);
                        }
                        pk += 1;
                    }
                }
                match found {
                    Option::Some(f) => {
                        let from_found = find_col(&self.tables[t].cols, &p.copy[f].from);
                        proof {
                            assert(pm.copy[f as int] == p.copy@[f as int]@);
                            assert(tbm.cols == self.tables@[t as int].cols@.map_values(|c: ColumnDef| c@));
                        }
                        match from_found {
                            Option::Some(si) => {
                                let row = &self.tables[t].rows[ri];
                                if si < row.len() {
                                    proof {
                                        assert(tbm.rows[ri as int][si as int] == row@[si as int]@);
                                    }
                                    new_row.push(copy_value(&row[si]));
                                } else {
                                    new_row.push(Value::NullVal);
                                }
                            },
                            Option::None => {
                                new_row.push(Value::NullVal);
                            },
                        }
                    },
                    Option::None => {
                        proof {
                            lemma_first_idx(copy_to_names(pm.copy), colname);
                        }
                        new_row.push(Value::NullVal);
                    },
                }
                proof {
                    assert(new_row@.len() == j + 1);
                    assert forall|x: int| 0 <= x < j + 1 implies row_model(new_row@)[x]
                        == rebuilt_cell(tbm.cols, pm.copy, tbm.rows[ri as int], pm.def.cols[x].name) by {
                        assert(row_model(new_row@)[x] == new_row@[x]@);
                        if x < j {
                            assert(row_model(pre_row)[x] == pre_row[x]@);
                        }
                    }
                }
                j += 1;
            }
            proof {
                assert(new_rows_m[ri as int] =~= row_model(new_row@));
            }
            new_rows.push(new_row);
            ri += 1;
        }
        // promote the shadow: replace the target in place
        let new_table = Table {
            name: p.target.clone(),
            cols: copy_columns(&p.def.cols),
            rows: new_rows,
        };
        proof {
            assert(new_table@.rows =~= new_rows_m);
            assert(new_table@.cols =~= pm.def.cols);
        }
        let ghost ntm = TableModel { name: pm.target, cols: pm.def.cols, rows: new_rows_m };
        let ghost pre_tables = self.tables@;
        let old_table = self.tables.remove(t);
        self.tables.insert(t, new_table);
        proof {
            lemma_remove_insert(pre_tables, t as int, self.tables@[t as int]);
            assert(self.tables@ =~= pre_tables.update(t as int, self.tables@[t as int]));
            assert(self@.tables =~= sm.tables.update(t as int, ntm));
        }
        let ghost cand = StoreModel { tables: sm.tables.update(t as int, ntm), ..sm };
        if !self.foreign_key_check() {
            // integrity failed: put the original back, nothing changed
            let ghost mid_tables = self.tables@;
            let _shadow = self.tables.remove(t);
            self.tables.insert(t, old_table);
            proof {
                lemma_remove_insert(mid_tables, t as int, self.tables@[t as int]);
                assert(self.tables@ =~= pre_tables.update(t as int, self.tables@[t as int]));
                assert(self.tables@ =~= pre_tables);
                assert(self@.tables =~= sm.tables);
            }
            return Result::Err(StoreError::FkViolation);
        }
        // the target's indexes went down with it
        let ghost idx0 = self@.indexes;
        let mut kept: Vec<IndexDef> = Vec::new();
        let mut xi: usize = 0;
        while xi < self.indexes.len()
            invariant
                xi <= self.indexes@.len(),
                idx0 == self@.indexes,
                self.indexes@.len() == idx0.len(),
                pm == p@,
                kept@.map_values(|i: IndexDef| i@) == kept_indexes(idx0.take(xi as int), pm.target),
            decreases self.indexes@.len() - xi,
        {
            proof {
                assert(idx0[xi as int] == self.indexes@[xi as int]@);
            }
            let ghost kept_pre = kept@.map_values(|i: IndexDef| i@);
            if !self.indexes[xi].table.eq(&p.target) {
                let idx = &self.indexes[xi];
                kept.push(IndexDef { name: idx.name.clone(), table: idx.table.clone() });
            }
            proof {
                lemma_kept_indexes_push(idx0.take(xi as int), pm.target, idx0[xi as int]);
                assert(idx0.take(xi as int + 1) =~= idx0.take(xi as int).push(idx0[xi as int]));
                if idx0[xi as int].table != pm.target {
                    assert(kept@.map_values(|i: IndexDef| i@) =~= kept_pre.push(idx0[xi as int]));
                }
            }
            xi += 1;
        }
        proof {
            assert(idx0.take(idx0.len() as int) =~= idx0);
        }
        self.indexes = kept;
        proof {
            assert(fk_consistent(cand));
            assert(self@ == (StoreModel { indexes: kept_indexes(cand.indexes, pm.target), ..cand }));
        }
        Result::Ok(())
    }
}

} // verus!
