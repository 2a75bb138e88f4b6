//! Table shapes: columns, foreign keys, table definitions, live tables.

use vstd::prelude::*;
use crate::values::{Value, ValueModel, copy_value};

verus! {

/// A foreign-key constraint on a column: the referenced table's key column,
/// and the delete policy (cascade or restrict).
#[derive(Debug, Clone, PartialEq, Eq)]
pub struct ForeignKey {
    pub parent: String,
    pub cascade: bool,
}

/// Model of a foreign key.
#[verifier::ext_equal]
pub struct FkModel {
    pub parent: Seq<char>,
    pub cascade: bool,
}

impl View for ForeignKey {
    type V = FkModel;

    open spec fn view(&self) -> FkModel {
        FkModel { parent: self.parent@, cascade: self.cascade }
    }
}

/// A column of a table: name, nullability, and an optional foreign key.
#[derive(Debug, Clone, PartialEq, Eq)]
pub struct ColumnDef {
    pub name: String,
    pub not_null: bool,
    pub fk: Option<ForeignKey>,
}

/// Model of a column.
#[verifier::ext_equal]
pub struct ColumnModel {
    pub name: Seq<char>,
    pub not_null: bool,
    pub fk: Option<FkModel>,
}

impl View for ColumnDef {
    type V = ColumnModel;

    open spec fn view(&self) -> ColumnModel {
        ColumnModel {
            name: self.name@,
            not_null: self.not_null,
            fk: match self.fk {
                Option::Some(f) => Option::Some(f@),
                Option::None => Option::None,
            },
        }
    }
}

/// The declared shape of a table: its name and columns. By convention the
/// first column is the table's key column, the one foreign keys reference.
#[derive(Debug, Clone, PartialEq, Eq)]
pub struct TableDef {
    pub name: String,
    pub cols: Vec<ColumnDef>,
}

/// Model of a table definition.
#[verifier::ext_equal]
pub struct TableDefModel {
    pub name: Seq<char>,
    pub cols: Seq<ColumnModel>,
}

impl View for TableDef {
    type V = TableDefModel;

    open spec fn view(&self) -> TableDefModel {
        TableDefModel { name: self.name@, cols: self.cols@.map_values(|c: ColumnDef| c@) }
    }
}

/// A live table: its shape together with its rows.
#[derive(Debug, Clone, PartialEq, Eq)]
pub struct Table {
    pub name: String,
    pub cols: Vec<ColumnDef>,
    pub rows: Vec<Vec<Value>>,
}

/// Model of a live table.
#[verifier::ext_equal]
pub struct TableModel {
    pub name: Seq<char>,
    pub cols: Seq<ColumnModel>,
    pub rows: Seq<Seq<ValueModel>>,
}

/// Model of one row.
pub open spec fn row_model(r: Seq<Value>) -> Seq<ValueModel> {
    r.map_values(|v: Value| v@)
}

impl View for Table {
    type V = TableModel;

    open spec fn view(&self) -> TableModel {
        TableModel {
            name: self.name@,
            cols: self.cols@.map_values(|c: ColumnDef| c@),
            rows: self.rows@.map_values(|r: Vec<Value>| row_model(r@)),
        }
    }
}

/// A named index over a table; the store only records its existence.
#[derive(Debug, Clone, PartialEq, Eq)]
pub struct IndexDef {
    pub name: String,
    pub table: String,
}

/// Model of an index.
#[verifier::ext_equal]
pub struct IndexModel {
    pub name: Seq<char>,
    pub table: Seq<char>,
}

impl View for IndexDef {
    type V = IndexModel;

    open spec fn view(&self) -> IndexModel {
        IndexModel { name: self.name@, table: self.table@ }
    }
}

/// Index of the first occurrence of `name` in `names`, or -1 if absent.
pub open spec fn first_idx(names: Seq<Seq<char>>, name: Seq<char>) -> int
    decreases names.len(),
{
    if names.len() == 0 {
        -1
    } else if names[0] == name {
        0
    } else {
        let r = first_idx(names.drop_first(), name);
        if r < 0 {
            -1
        } else {
            r + 1
        }
    }
}

/// What `first_idx` returns: -1 exactly when the name is absent, else the
/// position of its first occurrence.
pub proof fn lemma_first_idx(names: Seq<Seq<char>>, name: Seq<char>)
    ensures
        first_idx(names, name) == -1 || 0 <= first_idx(names, name) < names.len(),
        first_idx(names, name) == -1 ==> forall|j: int|
            0 <= j < names.len() ==> names[j] != name,
        first_idx(names, name) >= 0 ==> names[first_idx(names, name)] == name,
        first_idx(names, name) >= 0 ==> forall|j: int|
            0 <= j < first_idx(names, name) ==> names[j] != name,
    decreases names.len(),
{
    if names.len() == 0 {
    } else if names[0] == name {
    } else {
        lemma_first_idx(names.drop_first(), name);
        let r = first_idx(names.drop_first(), name);
        if r >= 0 {
            assert(names.drop_first()[r] == names[r + 1]);
            assert forall|j: int| 0 <= j < first_idx(names, name) implies names[j] != name by {
                if j > 0 {
                    assert(names.drop_first()[j - 1] == names[j]);
                }
            }
        } else {
            assert forall|j: int| 0 <= j < names.len() implies names[j] != name by {
                if j > 0 {
                    assert(names.drop_first()[j - 1] == names[j]);
                }
            }
        }
    }
}

/// The names of the columns, in order.
pub open spec fn col_names(cols: Seq<ColumnModel>) -> Seq<Seq<char>> {
    cols.map_values(|c: ColumnModel| c.name)
}

/// The names of the tables, in order.
pub open spec fn table_names(tables: Seq<TableModel>) -> Seq<Seq<char>> {
    tables.map_values(|t: TableModel| t.name)
}

/// The names of the indexes, in order.
pub open spec fn index_names(indexes: Seq<IndexModel>) -> Seq<Seq<char>> {
    indexes.map_values(|i: IndexModel| i.name)
}

/// First column of this name, or -1.
pub open spec fn col_idx(cols: Seq<ColumnModel>, name: Seq<char>) -> int {
    first_idx(col_names(cols), name)
}

/// First table of this name, or -1.
pub open spec fn table_idx(tables: Seq<TableModel>, name: Seq<char>) -> int {
    first_idx(table_names(tables), name)
}

/// All names in the sequence are distinct.
pub open spec fn names_unique(names: Seq<Seq<char>>) -> bool {
    forall|i: int, j: int| 0 <= i < j < names.len() ==> names[i] != names[j]
}

/// Every row has exactly one cell per column.
pub open spec fn rows_fit(t: TableModel) -> bool {
    forall|i: int| 0 <= i < t.rows.len() ==> (#[trigger] t.rows[i]).len() == t.cols.len()
}

/// A well-formed table: distinct column names, rows of the right arity.
pub open spec fn table_wf(t: TableModel) -> bool {
    names_unique(col_names(t.cols)) && rows_fit(t)
}

/// Finds the first column of the given name.
pub fn find_col(cols: &Vec<ColumnDef>, name: &String) -> (r: Option<usize>)
    ensures
        match r {
            Option::Some(i) => i < cols@.len() && col_idx(cols@.map_values(|c: ColumnDef| c@), name@) == i,
            Option::None => col_idx(cols@.map_values(|c: ColumnDef| c@), name@) == -1,
        },
{
    let ghost cs = cols@.map_values(|c: ColumnDef| c@);
    proof {
        lemma_first_idx(col_names(cs), name@);
        assert(col_names(cs).len() == cols@.len());
    }
    let mut i: usize = 0;
    while i < cols.len()
        invariant
            i <= cols@.len(),
            cs == cols@.map_values(|c: ColumnDef| c@),
            col_names(cs).len() == cols@.len(),
            forall|j: int| 0 <= j < i ==> col_names(cs)[j] != name@,
        decreases cols@.len() - i,
    {
        if cols[i].name.eq(name) {
            proof {
                assert(col_names(cs)[i as int] == cs[i as int].name);
                lemma_first_idx(col_names(cs), name@);
            }
            return Option::Some(i);
        }
        proof {
            assert(col_names(cs)[i as int] == cs[i as int].name);
        }
        i += 1;
    }
    proof {
        lemma_first_idx(col_names(cs), name@);
    }
    Option::None
}

/// Finds the first table of the given name.
pub fn find_table(tables: &Vec<Table>, name: &String) -> (r: Option<usize>)
    ensures
        match r {
            Option::Some(i) => i < tables@.len() && table_idx(tables@.map_values(|t: Table| t@), name@) == i,
            Option::None => table_idx(tables@.map_values(|t: Table| t@), name@) == -1,
        },
{
    let ghost ts = tables@.map_values(|t: Table| t@);
    proof {
        lemma_first_idx(table_names(ts), name@);
        assert(table_names(ts).len() == tables@.len());
    }
    let mut i: usize = 0;
    while i < tables.len()
        invariant
            i <= tables@.len(),
            ts == tables@.map_values(|t: Table| t@),
            table_names(ts).len() == tables@.len(),
            forall|j: int| 0 <= j < i ==> table_names(ts)[j] != name@,
        decreases tables@.len() - i,
    {
        if tables[i].name.eq(name) {
            proof {
                assert(table_names(ts)[i as int] == ts[i as int].name);
                lemma_first_idx(table_names(ts), name@);
            }
            return Option::Some(i);
        }
        proof {
            assert(table_names(ts)[i as int] == ts[i as int].name);
        }
        i += 1;
    }
    proof {
        lemma_first_idx(table_names(ts), name@);
    }
    Option::None
}

/// Produces a column equal in model to the given one.
pub fn copy_column(c: &ColumnDef) -> (r: ColumnDef)
    ensures
        r@ == c@,
{
    ColumnDef {
        name: c.name.clone(),
        not_null: c.not_null,
        fk: match &c.fk {
            Option::Some(f) => Option::Some(ForeignKey { parent: f.parent.clone(), cascade: f.cascade }),
            Option::None => Option::None,
        },
    }
}

/// Produces a column list equal in model to the given one.
pub fn copy_columns(cols: &Vec<ColumnDef>) -> (r: Vec<ColumnDef>)
    ensures
        r@.map_values(|c: ColumnDef| c@) == cols@.map_values(|c: ColumnDef| c@),
{
    let mut out: Vec<ColumnDef> = Vec::new();
    let mut i: usize = 0;
    while i < cols.len()
        invariant
            i <= cols@.len(),
            out@.len() == i,
            forall|j: int| 0 <= j < i ==> (#[trigger] out@[j])@ == cols@[j]@,
        decreases cols@.len() - i,
    {
        out.push(copy_column(&cols[i]));
        i += 1;
    }
    proof {
        assert(out@.map_values(|c: ColumnDef| c@) =~= cols@.map_values(|c: ColumnDef| c@));
    }
    out
}

/// Produces a row equal in model to the given one.
pub fn copy_row(r: &Vec<Value>) -> (out: Vec<Value>)
    ensures
        row_model(out@) == row_model(r@),
{
    let mut o: Vec<Value> = Vec::new();
    let mut i: usize = 0;
    while i < r.len()
        invariant
            i <= r@.len(),
            o@.len() == i,
            forall|j: int| 0 <= j < i ==> (#[trigger] o@[j])@ == r@[j]@,
        decreases r@.len() - i,
    {
        o.push(copy_value(&r[i]));
        i += 1;
    }
    proof {
        assert(row_model(o@) =~= row_model(r@));
    }
    o
}

/// Produces a row list equal in model to the given one.
pub fn copy_rows(rows: &Vec<Vec<Value>>) -> (out: Vec<Vec<Value>>)
    ensures
        out@.map_values(|r: Vec<Value>| row_model(r@)) == rows@.map_values(|r: Vec<Value>| row_model(r@)),
{
    let mut o: Vec<Vec<Value>> = Vec::new();
    let mut i: usize = 0;
    while i < rows.len()
        invariant
            i <= rows@.len(),
            o@.len() == i,
            forall|j: int| 0 <= j < i ==> row_model((#[trigger] o@[j])@) == row_model(rows@[j]@),
        decreases rows@.len() - i,
    {
        o.push(copy_row(&rows[i]));
        i += 1;
    }
    proof {
        assert(o@.map_values(|r: Vec<Value>| row_model(r@))
            =~= rows@.map_values(|r: Vec<Value>| row_model(r@)));
    }
    o
}

/// Produces a table equal in model to the given one.
pub fn copy_table(t: &Table) -> (r: Table)
    ensures
        r@ == t@,
{
    let r = Table {
        name: t.name.clone(),
        cols: copy_columns(&t.cols),
        rows: copy_rows(&t.rows),
    };
    proof {
        assert(r@.rows =~= t@.rows);
        assert(r@.cols =~= t@.cols);
    }
    r
}

} // verus!
