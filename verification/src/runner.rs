//! The migration runner: bootstraps the ledger, applies the pending
//! migrations in ascending version order inside per-migration
//! transactional boundaries, and records each applied version.

use vstd::prelude::*;
use crate::schema::{Table, IndexDef, copy_table};
use crate::store::{Store, StoreModel, StoreError};
use crate::statement::{run_body, run_body_spec, lemma_run_body_frame};
use crate::catalog::{Catalog, MigrationModel};

verus! {

/// A statement failed while applying one specific version. The whole
/// `apply` call aborts: the version is not recorded and later descriptors
/// never run.
#[derive(Debug, Clone, PartialEq, Eq)]
pub struct MigrationError {
    pub version: u64,
    pub description: String,
    pub cause: StoreError,
}

/// Model of a migration failure.
pub struct MigrationErrorModel {
    pub version: u64,
    pub description: Seq<char>,
    pub cause: StoreError,
}

impl View for MigrationError {
    type V = MigrationErrorModel;

    open spec fn view(&self) -> MigrationErrorModel {
        MigrationErrorModel {
            version: self.version,
            description: self.description@,
            cause: self.cause,
        }
    }
}

/// What one `apply` call leaves behind: the store, and either the number
/// of migrations actually applied or the failure.
pub struct ApplyOutcome {
    pub store: StoreModel,
    pub result: Result<int, MigrationErrorModel>,
}

/// The store with its ledger bootstrapped: created empty on the very
/// first run, untouched afterwards.
pub open spec fn ledger_ready(s: StoreModel) -> StoreModel {
    if s.ledger is Some {
        s
    } else {
        StoreModel { ledger: Option::Some(Seq::empty()), ..s }
    }
}

/// The version is recorded in the ledger.
pub open spec fn applied(s: StoreModel, v: u64) -> bool {
    s.ledger is Some && s.ledger->Some_0.contains(v)
}

/// The store with one more version recorded.
pub open spec fn recorded(s: StoreModel, v: u64) -> StoreModel {
    StoreModel {
        ledger: Option::Some(
            (if s.ledger is Some {
                s.ledger->Some_0
            } else {
                Seq::empty()
            }).push(v),
        ),
        ..s
    }
}

/// The runner's walk over the catalog: a descriptor whose version is in
/// the ledger is skipped; otherwise its body runs against the store and,
/// on success, the version is recorded. The first failing body stops the
/// walk with the store as it stood before that body (its transactional
/// boundary rolls it back), and no later body runs.
pub open spec fn apply_pending(s: StoreModel, migs: Seq<MigrationModel>) -> ApplyOutcome
    decreases migs.len(),
{
    if migs.len() == 0 {
        ApplyOutcome { store: s, result: Result::Ok(0) }
    } else {
        let m = migs[0];
        if applied(s, m.version) {
            apply_pending(s, migs.drop_first())
        } else {
            match run_body_spec(s, m.body) {
                Result::Err(e) => ApplyOutcome {
                    store: s,
                    result: Result::Err(MigrationErrorModel {
                        version: m.version,
                        description: m.description,
                        cause: e,
                    }),
                },
                Result::Ok(s2) => {
                    let s3 = recorded(s2, m.version);
                    let rest = apply_pending(s3, migs.drop_first());
                    ApplyOutcome {
                        store: rest.store,
                        result: match rest.result {
                            Result::Ok(n) => Result::Ok(n + 1),
                            Result::Err(f) => Result::Err(f),
                        },
                    }
                },
            }
        }
    }
}

/// What `apply` does: bootstrap the ledger, then walk the catalog.
pub open spec fn apply_outcome(s: StoreModel, migs: Seq<MigrationModel>) -> ApplyOutcome {
    apply_pending(ledger_ready(s), migs)
}

/// Produces a store equal in model to the given one: the runner's
/// snapshot for per-migration rollback.
pub fn copy_store(s: &Store) -> (r: Store)
    ensures
        r@ == s@,
{
    let mut tables: Vec<Table> = Vec::new();
    let mut i: usize = 0;
    while i < s.tables.len()
        invariant
            i <= s.tables@.len(),
            tables@.len() == i,
            forall|j: int| 0 <= j < i ==> (#[trigger] tables@[j])@ == s.tables@[j]@,
        decreases s.tables@.len() - i,
    {
        tables.push(copy_table(&s.tables[i]));
        i += 1;
    }
    let mut indexes: Vec<IndexDef> = Vec::new();
    let mut j: usize = 0;
    while j < s.indexes.len()
        invariant
            j <= s.indexes@.len(),
            indexes@.len() == j,
            forall|k: int| 0 <= k < j ==> (#[trigger] indexes@[k])@ == s.indexes@[k]@,
        decreases s.indexes@.len() - j,
    {
        let idx = &s.indexes[j];
        indexes.push(IndexDef { name: idx.name.clone(), table: idx.table.clone() });
        j += 1;
    }
    let ledger = match &s.ledger {
        Option::None => Option::None,
        Option::Some(l) => {
            let mut nl: Vec<u64> = Vec::new();
            let mut k: usize = 0;
            while k < l.len()
                invariant
                    k <= l@.len(),
                    nl@.len() == k,
                    forall|x: int| 0 <= x < k ==> nl@[x] == l@[x],
                decreases l@.len() - k,
            {
                nl.push(l[k]);
                k += 1;
            }
            proof {
                assert(nl@ =~= l@);
            }
            Option::Some(nl)
        },
    };
    let r = Store { tables, indexes, ledger, fk_on: s.fk_on };
    proof {
        assert(r@.tables =~= s@.tables);
        assert(r@.indexes =~= s@.indexes);
    }
    r
}

impl Store {
    /// Bootstraps the ledger: creates it empty on a brand-new store, does
    /// nothing when it already exists. Idempotent.
    pub fn ensure_ledger(&mut self)
        ensures
            final(self)@ == ledger_ready(old(self)@),
    {
        if self.ledger.is_none() {
            self.ledger = Option::Some(Vec::new());
            proof {
                assert(self@.ledger->Some_0 =~= Seq::<u64>::empty());
            }
        }
    }

    /// Answers whether a version is recorded in the ledger.
    pub fn version_applied(&self, v: u64) -> (r: bool)
        ensures
            r == applied(self@, v),
    {
        match &self.ledger {
            Option::None => false,
            Option::Some(l) => {
                let mut i: usize = 0;
                while i < l.len()
                    invariant
                        i <= l@.len(),
                        self@.ledger == Option::Some(l@),
                        forall|j: int| 0 <= j < i ==> l@[j] != v,
                    decreases l@.len() - i,
                {
                    if l[i] == v {
                        return true;
                    }
                    i += 1;
                }
                proof {
                    assert(!l@.contains(v));
                }
                false
            },
        }
    }

    /// Records a version in the ledger. Entries are only ever created,
    /// never updated or deleted.
    fn record_version(&mut self, v: u64)
        requires
            old(self)@.ledger is Some,
        ensures
            final(self)@ == recorded(old(self)@, v),
    {
        match &mut self.ledger {
            Option::Some(l) => {
                l.push(v);
            },
            Option::None => {},
        }
    }
}

/// Applies the catalog to the store: ensures the ledger exists, then runs
/// every descriptor whose version is not yet recorded, in catalog order,
/// each inside its own transactional boundary. Returns how many were
/// actually applied (0 means the store was already current), or the first
/// failure, naming the version and leaving the store as the last
/// successful migration left it.
pub fn apply(catalog: &Catalog, store: &mut Store) -> (r: Result<usize, MigrationError>)
    ensures
        ({
            let o = apply_outcome(old(store)@, catalog@);
            final(store)@ == o.store && match r {
                Result::Ok(n) => o.result == Result::<int, MigrationErrorModel>::Ok(n as int),
                Result::Err(e) => o.result == Result::<int, MigrationErrorModel>::Err(e@),
            }
        }),
{
    let ghost cm = catalog@;
    let ghost full = apply_outcome(old(store)@, cm);
    store.ensure_ledger();
    proof {
        assert(cm.skip(0) =~= cm);
    }
    let mut count: usize = 0;
    let mut i: usize = 0;
    while i < catalog.migrations.len()
        invariant
            i <= catalog.migrations@.len(),
            cm == catalog@,
            cm.len() == catalog.migrations@.len(),
            count <= i,
            full == apply_outcome(old(store)@, cm),
            store@.ledger is Some,
            ({
                let rest = apply_pending(store@, cm.skip(i as int));
                full.store == rest.store && full.result == (match rest.result {
                    Result::Ok(n) => Result::<int, MigrationErrorModel>::Ok(n + count),
                    Result::Err(e) => Result::<int, MigrationErrorModel>::Err(e),
                })
            }),
        decreases cm.len() - i,
    {
        proof {
            assert(cm[i as int] == catalog.migrations@[i as int]@);
            assert(cm.skip(i as int)[0] == cm[i as int]);
            assert(cm.skip(i as int).drop_first() =~= cm.skip(i as int + 1));
        }
        let m = &catalog.migrations[i];
        if !store.version_applied(m.version) {
            let ghost pre = store@;
            let snapshot = copy_store(store);
            match run_body(store, &m.body) {
                Result::Err(e) => {
                    *store = snapshot;
                    return Result::Err(MigrationError {
                        version: m.version,
                        description: m.description.clone(),
                        cause: e,
                    });
                },
                Result::Ok(()) => {
                    proof {
                        lemma_run_body_frame(pre, cm[i as int].body);
                    }
                    store.record_version(m.version);
                    count += 1;
                },
            }
        }
        i += 1;
    }
    proof {
        assert(cm.skip(cm.len() as int) =~= Seq::<MigrationModel>::empty());
    }
    Result::Ok(count)
}

} // verus!
