//! What holds of the runner as a whole: idempotence, order invariance of
//! the outcome, fail-fast, bootstrap, and the outcome of the crate's own
//! migration history on a brand-new store. Each law is stated over the
//! runner's own semantics (`apply_outcome`), which `apply` is proved to
//! follow exactly.

use vstd::prelude::*;
use crate::store::{StoreModel, StoreError, fresh_store, kept_indexes, rebuilt_rows, lemma_kept_indexes_push};
use crate::schema::{
    TableModel, IndexModel, table_names, col_names, names_unique, col_idx,
};
use crate::statement::{run_body_spec, lemma_run_body_frame, apply_statement, StatementModel};
use crate::catalog::{MigrationModel, catalog_valid};
use crate::migrations::{
    history, hist_v1, hist_v2, hist_v3, hist_v4, hist_v5, hist_v6, hist_v7, hist_v8, hist_v9,
    col_m,
};
use crate::runner::{
    ApplyOutcome, MigrationErrorModel, ledger_ready, applied, recorded, apply_pending,
    apply_outcome,
};

verus! {

/// Pushing onto the ledger records exactly one more version.
proof fn lemma_contains_push(l: Seq<u64>, x: u64, v: u64)
    ensures
        l.push(x).contains(v) <==> (l.contains(v) || v == x),
{
    if l.contains(v) {
        let i = choose|i: int| 0 <= i < l.len() && l[i] == v;
        assert(l.push(x)[i] == v);
    }
    if v == x {
        assert(l.push(x)[l.len() as int] == v);
    }
    if l.push(x).contains(v) {
        let i = choose|i: int| 0 <= i < l.push(x).len() && l.push(x)[i] == v;
        if i < l.len() {
            assert(l[i] == v);
        }
    }
}

/// The walk never loses the ledger once it exists.
proof fn lemma_pending_some(s: StoreModel, migs: Seq<MigrationModel>)
    requires
        s.ledger is Some,
    ensures
        apply_pending(s, migs).store.ledger is Some,
    decreases migs.len(),
{
    if migs.len() > 0 {
        let m = migs[0];
        if applied(s, m.version) {
            lemma_pending_some(s, migs.drop_first());
        } else {
            match run_body_spec(s, m.body) {
                Result::Err(_) => {},
                Result::Ok(s2) => {
                    lemma_run_body_frame(s, m.body);
                    lemma_pending_some(recorded(s2, m.version), migs.drop_first());
                },
            }
        }
    }
}

/// A successful walk only ever adds ledger entries, and afterwards every
/// version of the catalog is recorded.
proof fn lemma_pending_ledger(s: StoreModel, migs: Seq<MigrationModel>)
    requires
        s.ledger is Some,
        apply_pending(s, migs).result is Ok,
    ensures
        apply_pending(s, migs).store.ledger is Some,
        forall|v: u64| applied(s, v) ==> applied(apply_pending(s, migs).store, v),
        forall|k: int| 0 <= k < migs.len()
            ==> applied(apply_pending(s, migs).store, (#[trigger] migs[k]).version),
    decreases migs.len(),
{
    lemma_pending_some(s, migs);
    if migs.len() > 0 {
        let m = migs[0];
        let rest = migs.drop_first();
        assert(forall|x: int| 0 <= x < rest.len() ==> rest[x] == migs[x + 1]);
        if applied(s, m.version) {
            lemma_pending_ledger(s, rest);
            assert(applied(apply_pending(s, rest).store, m.version));
            assert forall|k: int| 0 <= k < migs.len()
                implies applied(apply_pending(s, migs).store, (#[trigger] migs[k]).version) by {
                if k > 0 {
                    assert(rest[k - 1] == migs[k]);
                    assert(applied(apply_pending(s, rest).store, rest[k - 1].version));
                }
            }
        } else {
            match run_body_spec(s, m.body) {
                Result::Err(_) => {},
                Result::Ok(s2) => {
                    lemma_run_body_frame(s, m.body);
                    let s3 = recorded(s2, m.version);
                    assert forall|v: u64| applied(s, v) implies applied(s3, v) by {
                        lemma_contains_push(s.ledger->Some_0, m.version, v);
                    }
                    assert(applied(s3, m.version)) by {
                        lemma_contains_push(s.ledger->Some_0, m.version, m.version);
                    }
                    lemma_pending_ledger(s3, rest);
                    assert(applied(apply_pending(s3, rest).store, m.version));
                    assert forall|k: int| 0 <= k < migs.len()
                        implies applied(apply_pending(s, migs).store, (#[trigger] migs[k]).version) by {
                        if k > 0 {
                            assert(rest[k - 1] == migs[k]);
                            assert(applied(apply_pending(s3, rest).store, rest[k - 1].version));
                        }
                    }
                },
            }
        }
    }
}

/// On a store where nothing from the catalog is applied yet, a successful
/// walk applies every migration: the count is the catalog's length.
proof fn lemma_pending_count(s: StoreModel, migs: Seq<MigrationModel>)
    requires
        s.ledger is Some,
        apply_pending(s, migs).result is Ok,
        forall|k: int| 0 <= k < migs.len() ==> !applied(s, (#[trigger] migs[k]).version),
        forall|i: int, j: int|
            0 <= i < j < migs.len() ==> (#[trigger] migs[i]).version != (#[trigger] migs[j]).version,
    ensures
        apply_pending(s, migs).result == Result::<int, MigrationErrorModel>::Ok(migs.len() as int),
    decreases migs.len(),
{
    if migs.len() > 0 {
        let m = migs[0];
        let rest = migs.drop_first();
        assert(forall|x: int| 0 <= x < rest.len() ==> rest[x] == migs[x + 1]);
        assert(!applied(s, m.version));
        match run_body_spec(s, m.body) {
            Result::Err(_) => {},
            Result::Ok(s2) => {
                lemma_run_body_frame(s, m.body);
                let s3 = recorded(s2, m.version);
                assert forall|k: int| 0 <= k < rest.len() implies !applied(s3, (#[trigger] rest[k]).version) by {
                    lemma_contains_push(s.ledger->Some_0, m.version, rest[k].version);
                    assert(rest[k].version == migs[k + 1].version);
                    assert(migs[k + 1].version != m.version);
                }
                lemma_pending_count(s3, rest);
            },
        }
    }
}

/// A walk over migrations that are all recorded already does nothing.
proof fn lemma_pending_all_applied(s: StoreModel, migs: Seq<MigrationModel>)
    requires
        forall|k: int| 0 <= k < migs.len() ==> applied(s, (#[trigger] migs[k]).version),
    ensures
        apply_pending(s, migs) == (ApplyOutcome {
            store: s,
            result: Result::<int, MigrationErrorModel>::Ok(0),
        }),
    decreases migs.len(),
{
    if migs.len() > 0 {
        let rest = migs.drop_first();
        assert(forall|x: int| 0 <= x < rest.len() ==> rest[x] == migs[x + 1]);
        assert(applied(s, migs[0].version));
        lemma_pending_all_applied(s, rest);
    }
}

/// Idempotence: on a brand-new store, a successful `apply` applies the
/// whole catalog — the count equals the catalog's length — and a second
/// `apply` of the same catalog applies nothing and leaves the store
/// exactly as the first left it.
pub proof fn lemma_idempotence(s: StoreModel, migs: Seq<MigrationModel>)
    requires
        catalog_valid(migs),
        s.ledger is None,
    ensures
        apply_outcome(s, migs).result is Ok ==> {
            &&& apply_outcome(s, migs).result
                == Result::<int, MigrationErrorModel>::Ok(migs.len() as int)
            &&& apply_outcome(apply_outcome(s, migs).store, migs) == (ApplyOutcome {
                store: apply_outcome(s, migs).store,
                result: Result::<int, MigrationErrorModel>::Ok(0),
            })
        },
{
    let s0 = ledger_ready(s);
    assert(s0.ledger == Option::Some(Seq::<u64>::empty()));
    assert(forall|v: u64| !applied(s0, v));
    if apply_outcome(s, migs).result is Ok {
        lemma_pending_count(s0, migs);
        lemma_pending_ledger(s0, migs);
        let o1 = apply_outcome(s, migs);
        assert(ledger_ready(o1.store) == o1.store);
        lemma_pending_all_applied(o1.store, migs);
    }
}

/// Bootstrap: on a store with no ledger table yet, `apply` behaves
/// exactly as on the same store with an empty ledger, and the ledger
/// exists afterwards, whatever the outcome.
pub proof fn lemma_bootstrap(s: StoreModel, migs: Seq<MigrationModel>)
    requires
        s.ledger is None,
    ensures
        apply_outcome(s, migs) == apply_outcome(
            StoreModel { ledger: Option::Some(Seq::<u64>::empty()), ..s },
            migs,
        ),
        apply_outcome(s, migs).store.ledger is Some,
{
    let s0 = ledger_ready(s);
    assert(ledger_ready(s0) == s0);
    lemma_pending_some(s0, migs);
}

/// Fail-fast: when the walk fails, it fails at some catalog position k
/// whose version the failure names; the store stands exactly as after the
/// successful prefix before k, and no version at or above the failing one
/// is recorded beyond what the starting ledger held.
proof fn lemma_pending_fail_fast(s: StoreModel, migs: Seq<MigrationModel>)
    requires
        s.ledger is Some,
        catalog_valid(migs),
        apply_pending(s, migs).result is Err,
    ensures
        ({
            let o = apply_pending(s, migs);
            let f = o.result->Err_0;
            exists|k: int|
                0 <= k < migs.len() && (#[trigger] migs[k]).version == f.version
                    && o.store == apply_pending(s, migs.take(k)).store
                    && apply_pending(s, migs.take(k)).result is Ok
                    && !applied(s, migs[k].version)
                    && run_body_spec(apply_pending(s, migs.take(k)).store, migs[k].body)
                        == Result::<StoreModel, StoreError>::Err(f.cause)
        }),
        forall|v: u64|
            v >= apply_pending(s, migs).result->Err_0.version
                ==> (applied(apply_pending(s, migs).store, v) <==> applied(s, v)),
    decreases migs.len(),
{
    let o = apply_pending(s, migs);
    let f = o.result->Err_0;
    let m = migs[0];
    let rest = migs.drop_first();
    assert(forall|x: int| 0 <= x < rest.len() ==> rest[x] == migs[x + 1]);
    assert forall|a: int, b: int| 0 <= a < b < rest.len()
        implies (#[trigger] rest[a]).version < (#[trigger] rest[b]).version by {
        assert(rest[a] == migs[a + 1]);
        assert(rest[b] == migs[b + 1]);
    }
    assert forall|a: int| 0 <= a < rest.len() implies (#[trigger] rest[a]).version >= 1 by {
        assert(rest[a] == migs[a + 1]);
    }
    if applied(s, m.version) {
        lemma_pending_fail_fast(s, rest);
        let k0 = choose|k0: int|
            0 <= k0 < rest.len() && rest[k0].version == f.version
                && o.store == apply_pending(s, rest.take(k0)).store
                && apply_pending(s, rest.take(k0)).result is Ok
                && !applied(s, rest[k0].version)
                && run_body_spec(apply_pending(s, rest.take(k0)).store, rest[k0].body)
                    == Result::<StoreModel, StoreError>::Err(f.cause);
        assert(migs.take(k0 + 1).drop_first() =~= rest.take(k0));
        assert(migs.take(k0 + 1)[0] == m);
        assert(rest[k0] == migs[k0 + 1]);
        assert(migs[k0 + 1].version == f.version
            && o.store == apply_pending(s, migs.take(k0 + 1)).store
            && apply_pending(s, migs.take(k0 + 1)).result is Ok
            && !applied(s, migs[k0 + 1].version)
            && run_body_spec(apply_pending(s, migs.take(k0 + 1)).store, migs[k0 + 1].body)
                == Result::<StoreModel, StoreError>::Err(f.cause));
    } else {
        match run_body_spec(s, m.body) {
            Result::Err(_) => {
                assert(migs.take(0) =~= Seq::<MigrationModel>::empty());
                assert(migs[0].version == f.version
                    && o.store == apply_pending(s, migs.take(0)).store
                    && apply_pending(s, migs.take(0)).result is Ok
                    && !applied(s, migs[0].version)
                    && run_body_spec(apply_pending(s, migs.take(0)).store, migs[0].body)
                        == Result::<StoreModel, StoreError>::Err(f.cause));
            },
            Result::Ok(s2) => {
                lemma_run_body_frame(s, m.body);
                let s3 = recorded(s2, m.version);
                lemma_pending_fail_fast(s3, rest);
                let k0 = choose|k0: int|
                    0 <= k0 < rest.len() && rest[k0].version == f.version
                        && o.store == apply_pending(s3, rest.take(k0)).store
                        && apply_pending(s3, rest.take(k0)).result is Ok
                        && !applied(s3, rest[k0].version)
                        && run_body_spec(apply_pending(s3, rest.take(k0)).store, rest[k0].body)
                            == Result::<StoreModel, StoreError>::Err(f.cause);
                assert(migs.take(k0 + 1).drop_first() =~= rest.take(k0));
                assert(migs.take(k0 + 1)[0] == m);
                assert(rest[k0] == migs[k0 + 1]);
                assert(f.version == migs[k0 + 1].version);
                assert(m.version < f.version);
                assert forall|v: u64| v >= f.version implies (applied(o.store, v) <==> applied(s, v)) by {
                    lemma_contains_push(s.ledger->Some_0, m.version, v);
                    assert(applied(o.store, v) <==> applied(s3, v));
                }
                assert(!applied(s, migs[k0 + 1].version)) by {
                    lemma_contains_push(s.ledger->Some_0, m.version, migs[k0 + 1].version);
                }
                assert(migs[k0 + 1].version == f.version
                    && o.store == apply_pending(s, migs.take(k0 + 1)).store
                    && apply_pending(s, migs.take(k0 + 1)).result is Ok
                    && !applied(s, migs[k0 + 1].version)
                    && run_body_spec(apply_pending(s, migs.take(k0 + 1)).store, migs[k0 + 1].body)
                        == Result::<StoreModel, StoreError>::Err(f.cause));
            },
        }
    }
}

/// Fail-fast for a whole `apply`: when it fails naming version v, the
/// versions after v were never run — the store stands exactly as after
/// the successful prefix before v — and the ledger holds no entry at or
/// above v beyond what it held before the call.
pub proof fn lemma_fail_fast(s: StoreModel, migs: Seq<MigrationModel>)
    requires
        catalog_valid(migs),
        apply_outcome(s, migs).result is Err,
    ensures
        ({
            let o = apply_outcome(s, migs);
            let f = o.result->Err_0;
            exists|k: int|
                0 <= k < migs.len() && (#[trigger] migs[k]).version == f.version
                    && o.store == apply_outcome(s, migs.take(k)).store
                    && apply_outcome(s, migs.take(k)).result is Ok
        }),
        forall|v: u64|
            v >= apply_outcome(s, migs).result->Err_0.version
                ==> (applied(apply_outcome(s, migs).store, v) <==> applied(ledger_ready(s), v)),
{
    let s0 = ledger_ready(s);
    lemma_pending_fail_fast(s0, migs);
    let o = apply_outcome(s, migs);
    let f = o.result->Err_0;
    let k0 = choose|k0: int|
        0 <= k0 < migs.len() && migs[k0].version == f.version
            && o.store == apply_pending(s0, migs.take(k0)).store
            && apply_pending(s0, migs.take(k0)).result is Ok;
    assert(migs[k0].version == f.version
        && o.store == apply_outcome(s, migs.take(k0)).store
        && apply_outcome(s, migs.take(k0)).result is Ok);
}

} // verus!

verus! {

/// A walk whose first `j` migrations are already recorded behaves as the
/// walk over the rest.
proof fn lemma_pending_skip_applied(s: StoreModel, migs: Seq<MigrationModel>, j: int)
    requires
        0 <= j <= migs.len(),
        forall|x: int| 0 <= x < j ==> applied(s, (#[trigger] migs[x]).version),
    ensures
        apply_pending(s, migs) == apply_pending(s, migs.skip(j)),
    decreases j,
{
    if j > 0 {
        assert(applied(s, migs[0].version));
        let rest = migs.drop_first();
        assert(forall|x: int| 0 <= x < rest.len() ==> rest[x] == migs[x + 1]);
        lemma_pending_skip_applied(s, rest, j - 1);
        assert(rest.skip(j - 1) =~= migs.skip(j));
    } else {
        assert(migs.skip(0) =~= migs);
    }
}

/// Splitting the walk: running the first `k` migrations and then the rest
/// from where they left off is the same as one walk, counts added; a
/// failing prefix is the whole walk's failure.
proof fn lemma_pending_split(s: StoreModel, migs: Seq<MigrationModel>, k: int)
    requires
        0 <= k <= migs.len(),
    ensures
        ({
            let a = apply_pending(s, migs.take(k));
            match a.result {
                Result::Ok(n) => {
                    let b = apply_pending(a.store, migs.skip(k));
                    apply_pending(s, migs) == (ApplyOutcome {
                        store: b.store,
                        result: match b.result {
                            Result::Ok(m2) => Result::<int, MigrationErrorModel>::Ok(n + m2),
                            Result::Err(f) => Result::<int, MigrationErrorModel>::Err(f),
                        },
                    })
                },
                Result::Err(f) => apply_pending(s, migs) == (ApplyOutcome {
                    store: a.store,
                    result: Result::<int, MigrationErrorModel>::Err(f),
                }),
            }
        }),
    decreases migs.len(),
{
    if k == 0 {
        assert(migs.take(0) =~= Seq::<MigrationModel>::empty());
        assert(migs.skip(0) =~= migs);
    } else {
        let m = migs[0];
        let rest = migs.drop_first();
        assert(forall|x: int| 0 <= x < rest.len() ==> rest[x] == migs[x + 1]);
        assert(migs.take(k)[0] == m);
        assert(migs.take(k).drop_first() =~= rest.take(k - 1));
        assert(migs.skip(k) =~= rest.skip(k - 1));
        if applied(s, m.version) {
            lemma_pending_split(s, rest, k - 1);
        } else {
            match run_body_spec(s, m.body) {
                Result::Err(_) => {},
                Result::Ok(s2) => {
                    let s3 = recorded(s2, m.version);
                    lemma_pending_split(s3, rest, k - 1);
                },
            }
        }
    }
}

/// The store after `k` single steps, each one `apply` call on the prefix
/// one migration longer than the last.
pub open spec fn stepwise(s: StoreModel, migs: Seq<MigrationModel>, k: int) -> StoreModel
    decreases k when k >= 0
{
    if k <= 0 {
        s
    } else {
        apply_outcome(stepwise(s, migs, k - 1), migs.take(k)).store
    }
}

/// Order invariance of the outcome: applying the catalog
/// migration-by-migration — one `apply` call per growing prefix — leaves
/// the same store as applying it all in one `apply` call, whether the
/// walk succeeds or stops at a failing version (the failing body fails
/// the same way each time it is retried).
pub proof fn lemma_order_invariance(s: StoreModel, migs: Seq<MigrationModel>, k: int)
    requires
        catalog_valid(migs),
        1 <= k <= migs.len(),
    ensures
        stepwise(s, migs, k) == apply_outcome(s, migs.take(k)).store,
    decreases k,
{
    let s0 = ledger_ready(s);
    if k == 1 {
        assert(stepwise(s, migs, 0) == s);
    } else {
        lemma_order_invariance(s, migs, k - 1);
        let sk1 = apply_outcome(s, migs.take(k - 1)).store;
        let a = apply_pending(s0, migs.take(k - 1));
        lemma_pending_split(s0, migs.take(k), k - 1);
        assert(migs.take(k).take(k - 1) =~= migs.take(k - 1));
        assert(stepwise(s, migs, k) == apply_outcome(sk1, migs.take(k)).store);
        match a.result {
            Result::Ok(_) => {
                lemma_pending_ledger(s0, migs.take(k - 1));
                assert(sk1.ledger is Some);
                assert(ledger_ready(sk1) == sk1);
                assert forall|x: int| 0 <= x < k - 1
                    implies applied(sk1, (#[trigger] migs.take(k)[x]).version) by {
                    assert(migs.take(k)[x] == migs.take(k - 1)[x]);
                    assert(applied(sk1, migs.take(k - 1)[x].version));
                }
                lemma_pending_skip_applied(sk1, migs.take(k), k - 1);
                assert(apply_outcome(sk1, migs.take(k)).store
                    == apply_pending(sk1, migs.take(k).skip(k - 1)).store);
                assert(apply_outcome(s, migs.take(k)).store
                    == apply_pending(sk1, migs.take(k).skip(k - 1)).store);
            },
            Result::Err(f) => {
                // the one-call walk stops at the same version; the stepwise
                // walk retries it from the same store and fails the same way
                let pre = migs.take(k - 1);
                assert forall|aa: int, bb: int| 0 <= aa < bb < pre.len()
                    implies (#[trigger] pre[aa]).version < (#[trigger] pre[bb]).version by {
                    assert(pre[aa] == migs[aa]);
                    assert(pre[bb] == migs[bb]);
                }
                assert forall|aa: int| 0 <= aa < pre.len()
                    implies (#[trigger] pre[aa]).version >= 1 by {
                    assert(pre[aa] == migs[aa]);
                }
                lemma_pending_fail_fast(s0, pre);
                let j = choose|j: int|
                    0 <= j < pre.len() && pre[j].version == f.version
                        && a.store == apply_pending(s0, pre.take(j)).store
                        && apply_pending(s0, pre.take(j)).result is Ok
                        && !applied(s0, pre[j].version)
                        && run_body_spec(apply_pending(s0, pre.take(j)).store, pre[j].body)
                            == Result::<StoreModel, StoreError>::Err(f.cause);
                assert(pre[j] == migs[j]);
                assert(pre.take(j) =~= migs.take(j));
                assert(sk1 == a.store);
                let pj = apply_pending(s0, migs.take(j));
                lemma_pending_ledger(s0, migs.take(j));
                assert(sk1.ledger is Some);
                assert(ledger_ready(sk1) == sk1);
                assert forall|x: int| 0 <= x < j
                    implies applied(sk1, (#[trigger] migs.take(k)[x]).version) by {
                    assert(migs.take(k)[x] == migs.take(j)[x]);
                    assert(applied(pj.store, migs.take(j)[x].version));
                }
                lemma_pending_skip_applied(sk1, migs.take(k), j);
                assert(migs.take(k).skip(j)[0] == migs[j]);
                assert(!applied(sk1, migs[j].version));
                assert(run_body_spec(sk1, migs[j].body)
                    == Result::<StoreModel, StoreError>::Err(f.cause));
                assert(apply_pending(sk1, migs.take(k).skip(j)).store == sk1);
                assert(apply_outcome(sk1, migs.take(k)).store == sk1);
                assert(apply_outcome(s, migs.take(k)).store == a.store);
            },
        }
    }
}

/// The whole catalog, migration by migration: the final store of the
/// stepwise walk equals the store of one `apply` of the whole catalog,
/// on successful and on failing runs alike.
pub proof fn lemma_order_invariance_full(s: StoreModel, migs: Seq<MigrationModel>)
    requires
        catalog_valid(migs),
        migs.len() >= 1,
    ensures
        stepwise(s, migs, migs.len() as int) == apply_outcome(s, migs).store,
{
    lemma_order_invariance(s, migs, migs.len() as int);
    assert(migs.take(migs.len() as int) =~= migs);
}

} // verus!

verus! {

/// The versions of a catalog, in catalog order.
pub open spec fn versions_of(migs: Seq<MigrationModel>) -> Seq<u64> {
    migs.map_values(|m: MigrationModel| m.version)
}

/// A successful walk over migrations none of which is recorded yet
/// appends exactly their versions, in catalog order.
proof fn lemma_pending_ledger_order(s: StoreModel, migs: Seq<MigrationModel>)
    requires
        s.ledger is Some,
        apply_pending(s, migs).result is Ok,
        forall|k: int| 0 <= k < migs.len() ==> !applied(s, (#[trigger] migs[k]).version),
        forall|i: int, j: int|
            0 <= i < j < migs.len() ==> (#[trigger] migs[i]).version != (#[trigger] migs[j]).version,
    ensures
        apply_pending(s, migs).store.ledger
            == Option::Some(s.ledger->Some_0 + versions_of(migs)),
    decreases migs.len(),
{
    if migs.len() == 0 {
        assert(s.ledger->Some_0 + versions_of(migs) =~= s.ledger->Some_0);
    } else {
        let m = migs[0];
        let rest = migs.drop_first();
        assert(forall|x: int| 0 <= x < rest.len() ==> rest[x] == migs[x + 1]);
        assert(!applied(s, m.version));
        match run_body_spec(s, m.body) {
            Result::Err(_) => {},
            Result::Ok(s2) => {
                lemma_run_body_frame(s, m.body);
                let s3 = recorded(s2, m.version);
                assert forall|k: int| 0 <= k < rest.len()
                    implies !applied(s3, (#[trigger] rest[k]).version) by {
                    lemma_contains_push(s.ledger->Some_0, m.version, rest[k].version);
                    assert(rest[k].version == migs[k + 1].version);
                    assert(migs[k + 1].version != m.version);
                }
                lemma_pending_ledger_order(s3, rest);
                assert(s3.ledger->Some_0 + versions_of(rest)
                    =~= s.ledger->Some_0 + versions_of(migs)) by {
                    assert(versions_of(migs)[0] == m.version);
                    assert(forall|x: int| 0 <= x < rest.len()
                        ==> versions_of(rest)[x] == versions_of(migs)[x + 1]);
                }
            },
        }
    }
}

/// Ordering guarantee: a successful `apply` on a brand-new store records
/// exactly the catalog's versions, in catalog order — never skipped,
/// never reordered.
pub proof fn lemma_ledger_order(s: StoreModel, migs: Seq<MigrationModel>)
    requires
        catalog_valid(migs),
        s.ledger is None,
        apply_outcome(s, migs).result is Ok,
    ensures
        apply_outcome(s, migs).store.ledger == Option::Some(versions_of(migs)),
{
    let s0 = ledger_ready(s);
    assert(forall|v: u64| !applied(s0, v));
    lemma_pending_ledger_order(s0, migs);
    assert(Seq::<u64>::empty() + versions_of(migs) =~= versions_of(migs));
}

} // verus!

verus! {

/// The concrete migration history is a valid catalog: versions 1 through
/// 9, strictly ascending.
pub proof fn lemma_history_valid()
    ensures
        catalog_valid(history()),
        history().len() == 9,
        forall|i: int| 0 <= i < 9 ==> (#[trigger] history()[i]).version == i + 1,
{
    assert forall|i: int| 0 <= i < 9 implies (#[trigger] history()[i]).version == i + 1 by {
        if i == 0 {
            assert(history()[0] == hist_v1());
        } else if i == 1 {
            assert(history()[1] == hist_v2());
        } else if i == 2 {
            assert(history()[2] == hist_v3());
        } else if i == 3 {
            assert(history()[3] == hist_v4());
        } else if i == 4 {
            assert(history()[4] == hist_v5());
        } else if i == 5 {
            assert(history()[5] == hist_v6());
        } else if i == 6 {
            assert(history()[6] == hist_v7());
        } else if i == 7 {
            assert(history()[7] == hist_v8());
        } else {
            assert(history()[8] == hist_v9());
        }
    }
}

/// The first run of the concrete history on a brand-new store: it
/// succeeds, applies all nine migrations, and the ledger reads exactly 1
/// through 9, in order.
pub proof fn lemma_history_outcome()
    ensures
        apply_outcome(fresh_store(), history()).result
            == Result::<int, MigrationErrorModel>::Ok(9),
        apply_outcome(fresh_store(), history()).store.ledger
            == Option::Some(seq![1u64, 2u64, 3u64, 4u64, 5u64, 6u64, 7u64, 8u64, 9u64]),
{
    lemma_history_applies();
    lemma_history_valid();
    lemma_idempotence(fresh_store(), history());
    lemma_ledger_order(fresh_store(), history());
    assert(versions_of(history())
        =~= seq![1u64, 2u64, 3u64, 4u64, 5u64, 6u64, 7u64, 8u64, 9u64]);
}

} // verus!

verus! {

/// `first_idx` is -1 when no name matches.
proof fn lemma_first_idx_absent(names: Seq<Seq<char>>, name: Seq<char>)
    requires
        forall|j: int| 0 <= j < names.len() ==> names[j] != name,
    ensures
        crate::schema::first_idx(names, name) == -1,
{
    crate::schema::lemma_first_idx(names, name);
}

/// `first_idx` finds the position of the first match.
proof fn lemma_first_idx_at(names: Seq<Seq<char>>, name: Seq<char>, i: int)
    requires
        0 <= i < names.len(),
        names[i] == name,
        forall|j: int| 0 <= j < i ==> names[j] != name,
    ensures
        crate::schema::first_idx(names, name) == i,
{
    crate::schema::lemma_first_idx(names, name);
    let f = crate::schema::first_idx(names, name);
    if f < i {
        assert(names[f] == name);
    }
}

/// An empty body leaves the store as it is.
proof fn lemma_run_body_nil(s: StoreModel)
    ensures
        run_body_spec(s, Seq::<StatementModel>::empty()) == Result::<StoreModel, StoreError>::Ok(s),
{
}

/// A body whose first statement succeeds continues from its result.
proof fn lemma_run_body_step(s: StoreModel, body: Seq<StatementModel>)
    requires
        body.len() > 0,
        apply_statement(s, body[0]) is Ok,
    ensures
        run_body_spec(s, body)
            == run_body_spec(apply_statement(s, body[0])->Ok_0, body.drop_first()),
{
}

/// A store whose tables all stand empty is referentially consistent.
proof fn lemma_no_rows_consistent(tables: Seq<crate::schema::TableModel>)
    requires
        forall|t: int| 0 <= t < tables.len() ==> (#[trigger] tables[t]).rows.len() == 0,
    ensures
        crate::store::fk_consistent_tables(tables),
{
}

} // verus!

verus! {

/// The concrete history applies cleanly: on a brand-new store, every one
/// of the nine versions succeeds.
#[verifier::rlimit(100)]
#[verifier::spinoff_prover]
pub proof fn lemma_history_applies()
    ensures
        apply_outcome(fresh_store(), history()).result is Ok,
{
    reveal_strlit("projects");
    reveal_strlit("entries");
    reveal_strlit("id");
    reveal_strlit("name");
    reveal_strlit("date");
    reveal_strlit("content");
    reveal_strlit("project_id");
    reveal_strlit("date_updated");
    reveal_strlit("entries_dg_tmp");
    reveal_strlit("date_created");
    reveal_strlit("settings");
    reveal_strlit("key");
    reveal_strlit("value");
    reveal_strlit("settings_key_index");
    reveal_strlit("status");
    reveal_strlit("project");
    reveal_strlit("progress");
    reveal_strlit("start_date");
    reveal_strlit("end_date");
    reveal_strlit("status_dg_tmp");
    reveal_strlit("projects_dg_tmp");
    reveal_strlit("parent");
    reveal_strlit("type");
    assert("projects"@.len() == 8 && "entries"@.len() == 7 && "id"@.len() == 2
        && "name"@.len() == 4 && "date"@.len() == 4 && "content"@.len() == 7
        && "project_id"@.len() == 10 && "date_updated"@.len() == 12
        && "entries_dg_tmp"@.len() == 14 && "date_created"@.len() == 12
        && "settings"@.len() == 8 && "key"@.len() == 3 && "value"@.len() == 5
        && "settings_key_index"@.len() == 18 && "status"@.len() == 6
        && "project"@.len() == 7 && "progress"@.len() == 8 && "start_date"@.len() == 10
        && "end_date"@.len() == 8 && "status_dg_tmp"@.len() == 13
        && "projects_dg_tmp"@.len() == 15 && "parent"@.len() == 6 && "type"@.len() == 4);
    assert("projects"@[0] == 'p' && "settings"@[0] == 's');
    assert("name"@[0] == 'n' && "type"@[0] == 't');
    assert("progress"@[0] == 'p' && "end_date"@[0] == 'e');
    assert("date_updated"@[5] == 'u' && "date_created"@[5] == 'c');
    assert("project_id"@[0] == 'p' && "start_date"@[0] == 's');
    let h = history();
    let s0 = ledger_ready(fresh_store());
    assert(s0.ledger == Option::Some(Seq::<u64>::empty()));
    // version 1: create projects, create entries
    assert(h[0] == hist_v1());
    let b1 = hist_v1().body;
    assert(!applied(s0, 1));
    lemma_first_idx_absent(table_names(s0.tables), "projects"@);
    assert(names_unique(col_names(hist_v1().body[0]->CreateTable_0.cols)));
    let sa = apply_statement(s0, b1[0])->Ok_0;
    assert(apply_statement(s0, b1[0]) == Result::<StoreModel, StoreError>::Ok(sa));
    assert(sa.tables.len() == 1 && sa.tables[0].name == "projects"@);
    lemma_first_idx_absent(table_names(sa.tables), "entries"@);
    assert(names_unique(col_names(b1[1]->CreateTable_0.cols)));
    let sb = apply_statement(sa, b1[1])->Ok_0;
    assert(apply_statement(sa, b1[1]) == Result::<StoreModel, StoreError>::Ok(sb));
    lemma_run_body_step(s0, b1);
    assert(b1.drop_first() =~= seq![b1[1]]);
    lemma_run_body_step(sa, seq![b1[1]]);
    assert(seq![b1[1]].drop_first() =~= Seq::<StatementModel>::empty());
    lemma_run_body_nil(sb);
    assert(run_body_spec(s0, b1) == Result::<StoreModel, StoreError>::Ok(sb));
    let s1 = recorded(sb, 1);
    assert(s1.tables.len() == 2 && s1.tables[0].name == "projects"@
        && s1.tables[1].name == "entries"@ && s1.tables[1].cols.len() == 4
        && s1.tables[0].rows.len() == 0 && s1.tables[1].rows.len() == 0
        && s1.indexes.len() == 0
        && s1.ledger == Option::Some(seq![1u64]));
    // version 2: add date_updated to entries
    assert(h[1] == hist_v2());
    let b2 = hist_v2().body;
    assert(!applied(s1, 2));
    lemma_first_idx_at(table_names(s1.tables), "entries"@, 1);
    lemma_first_idx_absent(col_names(s1.tables[1].cols), "date_updated"@);
    let sc = apply_statement(s1, b2[0])->Ok_0;
    assert(apply_statement(s1, b2[0]) == Result::<StoreModel, StoreError>::Ok(sc));
    lemma_run_body_step(s1, b2);
    assert(b2.drop_first() =~= Seq::<StatementModel>::empty());
    lemma_run_body_nil(sc);
    assert(run_body_spec(s1, b2) == Result::<StoreModel, StoreError>::Ok(sc));
    let s2 = recorded(sc, 2);
    assert(s2.tables.len() == 2 && s2.tables[0].name == "projects"@
        && s2.tables[1].name == "entries"@ && s2.tables[1].cols.len() == 5
        && s2.tables[1].cols == s1.tables[1].cols.push(col_m("date_updated"@, false))
        && s2.tables[0].rows.len() == 0 && s2.tables[1].rows.len() == 0
        && s2.indexes.len() == 0
        && s2.ledger == Option::Some(seq![1u64, 2u64]));
    // version 3: rebuild entries, renaming date to date_created
    assert(h[2] == hist_v3());
    let b3 = hist_v3().body;
    assert(!applied(s2, 3));
    let p3 = b3[0]->Rebuild_0;
    lemma_first_idx_at(table_names(s2.tables), "entries"@, 1);
    lemma_first_idx_absent(table_names(s2.tables), "entries_dg_tmp"@);
    assert(names_unique(col_names(p3.def.cols)));
    assert forall|k: int| 0 <= k < p3.copy.len()
        implies col_idx(p3.def.cols, (#[trigger] p3.copy[k]).to) >= 0
            && col_idx(s2.tables[1].cols, p3.copy[k].from) >= 0 by {
        if k == 0 {
            lemma_first_idx_at(col_names(p3.def.cols), "id"@, 0);
            lemma_first_idx_at(col_names(s2.tables[1].cols), "id"@, 0);
        } else if k == 1 {
            lemma_first_idx_at(col_names(p3.def.cols), "date_created"@, 1);
            lemma_first_idx_at(col_names(s2.tables[1].cols), "date"@, 1);
        } else if k == 2 {
            lemma_first_idx_at(col_names(p3.def.cols), "content"@, 2);
            lemma_first_idx_at(col_names(s2.tables[1].cols), "content"@, 2);
        } else if k == 3 {
            lemma_first_idx_at(col_names(p3.def.cols), "project_id"@, 3);
            lemma_first_idx_at(col_names(s2.tables[1].cols), "project_id"@, 3);
        } else {
            lemma_first_idx_at(col_names(p3.def.cols), "date_updated"@, 4);
            lemma_first_idx_at(col_names(s2.tables[1].cols), "date_updated"@, 4);
        }
    }
    let cand3 = StoreModel {
        tables: s2.tables.update(1, TableModel {
            name: p3.target,
            cols: p3.def.cols,
            rows: rebuilt_rows(s2.tables[1].cols, p3.copy, s2.tables[1].rows, p3.def.cols),
        }),
        ..s2
    };
    assert(cand3.tables[1].rows.len() == 0);
    lemma_no_rows_consistent(cand3.tables);
    assert(kept_indexes(cand3.indexes, p3.target) =~= Seq::<IndexModel>::empty());
    let sd = apply_statement(s2, b3[0])->Ok_0;
    assert(apply_statement(s2, b3[0]) == Result::<StoreModel, StoreError>::Ok(sd));
    lemma_run_body_step(s2, b3);
    assert(b3.drop_first() =~= Seq::<StatementModel>::empty());
    lemma_run_body_nil(sd);
    assert(run_body_spec(s2, b3) == Result::<StoreModel, StoreError>::Ok(sd));
    let s3 = recorded(sd, 3);
    assert(s3.tables.len() == 2 && s3.tables[0].name == "projects"@
        && s3.tables[1].name == "entries"@ && s3.tables[1].cols.len() == 5
        && s3.tables[0].rows.len() == 0 && s3.tables[1].rows.len() == 0
        && s3.tables[1].cols == hist_v3().body[0]->Rebuild_0.def.cols
        && s3.indexes == Seq::<IndexModel>::empty()
        && s3.ledger == Option::Some(seq![1u64, 2u64, 3u64]));
    // version 4: create settings and its index
    assert(h[3] == hist_v4());
    let b4 = hist_v4().body;
    assert(!applied(s3, 4));
    lemma_first_idx_absent(table_names(s3.tables), "settings"@);
    assert(names_unique(col_names(b4[0]->CreateTable_0.cols)));
    let se = apply_statement(s3, b4[0])->Ok_0;
    assert(apply_statement(s3, b4[0]) == Result::<StoreModel, StoreError>::Ok(se));
    lemma_first_idx_at(table_names(se.tables), "settings"@, 2);
    lemma_first_idx_absent(crate::schema::index_names(se.indexes), "settings_key_index"@);
    let sf = apply_statement(se, b4[1])->Ok_0;
    assert(apply_statement(se, b4[1]) == Result::<StoreModel, StoreError>::Ok(sf));
    lemma_run_body_step(s3, b4);
    assert(b4.drop_first() =~= seq![b4[1]]);
    lemma_run_body_step(se, seq![b4[1]]);
    assert(seq![b4[1]].drop_first() =~= Seq::<StatementModel>::empty());
    lemma_run_body_nil(sf);
    assert(run_body_spec(s3, b4) == Result::<StoreModel, StoreError>::Ok(sf));
    let s4 = recorded(sf, 4);
    assert(s4.tables.len() == 3 && s4.tables[0].name == "projects"@
        && s4.tables[1].name == "entries"@ && s4.tables[2].name == "settings"@
        && s4.tables[0].rows.len() == 0 && s4.tables[1].rows.len() == 0
        && s4.tables[2].rows.len() == 0
        && s4.tables[1].cols == s3.tables[1].cols
        && s4.indexes == Seq::<IndexModel>::empty().push(
            IndexModel { name: "settings_key_index"@, table: "settings"@ })
        && s4.ledger == Option::Some(seq![1u64, 2u64, 3u64, 4u64]));
    // version 5: create status
    assert(h[4] == hist_v5());
    let b5 = hist_v5().body;
    assert(!applied(s4, 5));
    lemma_first_idx_absent(table_names(s4.tables), "status"@);
    assert(names_unique(col_names(b5[0]->CreateTable_0.cols)));
    let sg = apply_statement(s4, b5[0])->Ok_0;
    assert(apply_statement(s4, b5[0]) == Result::<StoreModel, StoreError>::Ok(sg));
    lemma_run_body_step(s4, b5);
    assert(b5.drop_first() =~= Seq::<StatementModel>::empty());
    lemma_run_body_nil(sg);
    assert(run_body_spec(s4, b5) == Result::<StoreModel, StoreError>::Ok(sg));
    let s5 = recorded(sg, 5);
    assert(s5.tables.len() == 4 && s5.tables[0].name == "projects"@
        && s5.tables[1].name == "entries"@ && s5.tables[2].name == "settings"@
        && s5.tables[3].name == "status"@
        && s5.tables[3].cols == hist_v5().body[0]->CreateTable_0.cols
        && s5.tables[0].rows.len() == 0 && s5.tables[1].rows.len() == 0
        && s5.tables[2].rows.len() == 0 && s5.tables[3].rows.len() == 0
        && s5.indexes == s4.indexes
        && s5.ledger == Option::Some(seq![1u64, 2u64, 3u64, 4u64, 5u64]));
    // version 6: rebuild status, renaming project to project_id
    assert(h[5] == hist_v6());
    let b6 = hist_v6().body;
    assert(!applied(s5, 6));
    let p6 = b6[0]->Rebuild_0;
    lemma_first_idx_at(table_names(s5.tables), "status"@, 3);
    lemma_first_idx_absent(table_names(s5.tables), "status_dg_tmp"@);
    assert(names_unique(col_names(p6.def.cols)));
    assert forall|k: int| 0 <= k < p6.copy.len()
        implies col_idx(p6.def.cols, (#[trigger] p6.copy[k]).to) >= 0
            && col_idx(s5.tables[3].cols, p6.copy[k].from) >= 0 by {
        if k == 0 {
            lemma_first_idx_at(col_names(p6.def.cols), "id"@, 0);
            lemma_first_idx_at(col_names(s5.tables[3].cols), "id"@, 0);
        } else if k == 1 {
            lemma_first_idx_at(col_names(p6.def.cols), "project_id"@, 1);
            lemma_first_idx_at(col_names(s5.tables[3].cols), "project"@, 1);
        } else if k == 2 {
            lemma_first_idx_at(col_names(p6.def.cols), "progress"@, 2);
            lemma_first_idx_at(col_names(s5.tables[3].cols), "progress"@, 2);
        } else if k == 3 {
            lemma_first_idx_at(col_names(p6.def.cols), "start_date"@, 3);
            lemma_first_idx_at(col_names(s5.tables[3].cols), "start_date"@, 3);
        } else {
            lemma_first_idx_at(col_names(p6.def.cols), "end_date"@, 4);
            lemma_first_idx_at(col_names(s5.tables[3].cols), "end_date"@, 4);
        }
    }
    let cand6 = StoreModel {
        tables: s5.tables.update(3, TableModel {
            name: p6.target,
            cols: p6.def.cols,
            rows: rebuilt_rows(s5.tables[3].cols, p6.copy, s5.tables[3].rows, p6.def.cols),
        }),
        ..s5
    };
    assert(cand6.tables[3].rows.len() == 0);
    lemma_no_rows_consistent(cand6.tables);
    lemma_kept_indexes_push(Seq::<IndexModel>::empty(), "status"@,
        IndexModel { name: "settings_key_index"@, table: "settings"@ });
    assert(kept_indexes(Seq::<IndexModel>::empty(), "status"@) =~= Seq::<IndexModel>::empty());
    assert(kept_indexes(cand6.indexes, p6.target) == cand6.indexes);
    let sh = apply_statement(s5, b6[0])->Ok_0;
    assert(apply_statement(s5, b6[0]) == Result::<StoreModel, StoreError>::Ok(sh));
    lemma_run_body_step(s5, b6);
    assert(b6.drop_first() =~= Seq::<StatementModel>::empty());
    lemma_run_body_nil(sh);
    assert(run_body_spec(s5, b6) == Result::<StoreModel, StoreError>::Ok(sh));
    let s6 = recorded(sh, 6);
    assert(s6.tables.len() == 4 && s6.tables[0].name == "projects"@
        && s6.tables[1].name == "entries"@ && s6.tables[2].name == "settings"@
        && s6.tables[3].name == "status"@
        && s6.tables[1].cols == s5.tables[1].cols
        && s6.tables[3].cols == p6.def.cols
        && s6.tables[0].rows.len() == 0 && s6.tables[1].rows.len() == 0
        && s6.tables[2].rows.len() == 0 && s6.tables[3].rows.len() == 0
        && s6.indexes == s4.indexes
        && s6.ledger == Option::Some(seq![1u64, 2u64, 3u64, 4u64, 5u64, 6u64]));
    // version 7: rebuild status and entries without the cascade
    assert(h[6] == hist_v7());
    let b7 = hist_v7().body;
    assert(!applied(s6, 7));
    let p7a = b7[0]->Rebuild_0;
    lemma_first_idx_at(table_names(s6.tables), "status"@, 3);
    lemma_first_idx_absent(table_names(s6.tables), "status_dg_tmp"@);
    assert(names_unique(col_names(p7a.def.cols)));
    assert forall|k: int| 0 <= k < p7a.copy.len()
        implies col_idx(p7a.def.cols, (#[trigger] p7a.copy[k]).to) >= 0
            && col_idx(s6.tables[3].cols, p7a.copy[k].from) >= 0 by {
        if k == 0 {
            lemma_first_idx_at(col_names(p7a.def.cols), "id"@, 0);
            lemma_first_idx_at(col_names(s6.tables[3].cols), "id"@, 0);
        } else if k == 1 {
            lemma_first_idx_at(col_names(p7a.def.cols), "project_id"@, 1);
            lemma_first_idx_at(col_names(s6.tables[3].cols), "project_id"@, 1);
        } else if k == 2 {
            lemma_first_idx_at(col_names(p7a.def.cols), "progress"@, 2);
            lemma_first_idx_at(col_names(s6.tables[3].cols), "progress"@, 2);
        } else if k == 3 {
            lemma_first_idx_at(col_names(p7a.def.cols), "start_date"@, 3);
            lemma_first_idx_at(col_names(s6.tables[3].cols), "start_date"@, 3);
        } else if k == 4 {
            lemma_first_idx_at(col_names(p7a.def.cols), "end_date"@, 4);
            lemma_first_idx_at(col_names(s6.tables[3].cols), "end_date"@, 4);
        } else {
            lemma_first_idx_at(col_names(p7a.def.cols), "date_created"@, 5);
            lemma_first_idx_at(col_names(s6.tables[3].cols), "date_created"@, 5);
        }
    }
    let cand7a = StoreModel {
        tables: s6.tables.update(3, TableModel {
            name: p7a.target,
            cols: p7a.def.cols,
            rows: rebuilt_rows(s6.tables[3].cols, p7a.copy, s6.tables[3].rows, p7a.def.cols),
        }),
        ..s6
    };
    assert(cand7a.tables[3].rows.len() == 0);
    lemma_no_rows_consistent(cand7a.tables);
    lemma_kept_indexes_push(Seq::<IndexModel>::empty(), "status"@,
        IndexModel { name: "settings_key_index"@, table: "settings"@ });
    assert(kept_indexes(Seq::<IndexModel>::empty(), "status"@) =~= Seq::<IndexModel>::empty());
    assert(kept_indexes(cand7a.indexes, p7a.target) == cand7a.indexes);
    let si = apply_statement(s6, b7[0])->Ok_0;
    assert(apply_statement(s6, b7[0]) == Result::<StoreModel, StoreError>::Ok(si));
    let p7b = b7[1]->Rebuild_0;
    lemma_first_idx_at(table_names(si.tables), "entries"@, 1);
    lemma_first_idx_absent(table_names(si.tables), "entries_dg_tmp"@);
    assert(names_unique(col_names(p7b.def.cols)));
    assert(si.tables[1].cols == hist_v3().body[0]->Rebuild_0.def.cols);
    assert forall|k: int| 0 <= k < p7b.copy.len()
        implies col_idx(p7b.def.cols, (#[trigger] p7b.copy[k]).to) >= 0
            && col_idx(si.tables[1].cols, p7b.copy[k].from) >= 0 by {
        if k == 0 {
            lemma_first_idx_at(col_names(p7b.def.cols), "id"@, 0);
            lemma_first_idx_at(col_names(si.tables[1].cols), "id"@, 0);
        } else if k == 1 {
            lemma_first_idx_at(col_names(p7b.def.cols), "date_created"@, 1);
            lemma_first_idx_at(col_names(si.tables[1].cols), "date_created"@, 1);
        } else if k == 2 {
            lemma_first_idx_at(col_names(p7b.def.cols), "content"@, 2);
            lemma_first_idx_at(col_names(si.tables[1].cols), "content"@, 2);
        } else if k == 3 {
            lemma_first_idx_at(col_names(p7b.def.cols), "project_id"@, 3);
            lemma_first_idx_at(col_names(si.tables[1].cols), "project_id"@, 3);
        } else {
            lemma_first_idx_at(col_names(p7b.def.cols), "date_updated"@, 4);
            lemma_first_idx_at(col_names(si.tables[1].cols), "date_updated"@, 4);
        }
    }
    let cand7b = StoreModel {
        tables: si.tables.update(1, TableModel {
            name: p7b.target,
            cols: p7b.def.cols,
            rows: rebuilt_rows(si.tables[1].cols, p7b.copy, si.tables[1].rows, p7b.def.cols),
        }),
        ..si
    };
    assert(cand7b.tables[1].rows.len() == 0);
    lemma_no_rows_consistent(cand7b.tables);
    lemma_kept_indexes_push(Seq::<IndexModel>::empty(), "entries"@,
        IndexModel { name: "settings_key_index"@, table: "settings"@ });
    assert(kept_indexes(Seq::<IndexModel>::empty(), "entries"@) =~= Seq::<IndexModel>::empty());
    assert(kept_indexes(cand7b.indexes, p7b.target) == cand7b.indexes);
    let sj = apply_statement(si, b7[1])->Ok_0;
    assert(apply_statement(si, b7[1]) == Result::<StoreModel, StoreError>::Ok(sj));
    lemma_run_body_step(s6, b7);
    assert(b7.drop_first() =~= seq![b7[1]]);
    lemma_run_body_step(si, seq![b7[1]]);
    assert(seq![b7[1]].drop_first() =~= Seq::<StatementModel>::empty());
    lemma_run_body_nil(sj);
    assert(run_body_spec(s6, b7) == Result::<StoreModel, StoreError>::Ok(sj));
    let s7 = recorded(sj, 7);
    assert(s7.tables.len() == 4 && s7.tables[0].name == "projects"@
        && s7.tables[0].cols == hist_v1().body[0]->CreateTable_0.cols
        && s7.tables[0].rows.len() == 0 && s7.tables[1].rows.len() == 0
        && s7.tables[1].name == "entries"@ && s7.tables[2].name == "settings"@
        && s7.tables[3].name == "status"@
        && s7.tables[2].rows.len() == 0 && s7.tables[3].rows.len() == 0
        && s7.indexes == s4.indexes
        && s7.ledger == Option::Some(seq![1u64, 2u64, 3u64, 4u64, 5u64, 6u64, 7u64]));
    // version 8: rebuild projects, adding the self-referencing parent
    assert(h[7] == hist_v8());
    let b8 = hist_v8().body;
    assert(!applied(s7, 8));
    let p8 = b8[0]->Rebuild_0;
    lemma_first_idx_at(table_names(s7.tables), "projects"@, 0);
    lemma_first_idx_absent(table_names(s7.tables), "projects_dg_tmp"@);
    assert(names_unique(col_names(p8.def.cols)));
    assert forall|k: int| 0 <= k < p8.copy.len()
        implies col_idx(p8.def.cols, (#[trigger] p8.copy[k]).to) >= 0
            && col_idx(s7.tables[0].cols, p8.copy[k].from) >= 0 by {
        if k == 0 {
            lemma_first_idx_at(col_names(p8.def.cols), "id"@, 0);
            lemma_first_idx_at(col_names(s7.tables[0].cols), "id"@, 0);
        } else {
            lemma_first_idx_at(col_names(p8.def.cols), "name"@, 1);
            lemma_first_idx_at(col_names(s7.tables[0].cols), "name"@, 1);
        }
    }
    let cand8 = StoreModel {
        tables: s7.tables.update(0, TableModel {
            name: p8.target,
            cols: p8.def.cols,
            rows: rebuilt_rows(s7.tables[0].cols, p8.copy, s7.tables[0].rows, p8.def.cols),
        }),
        ..s7
    };
    assert(cand8.tables[0].rows.len() == 0);
    lemma_no_rows_consistent(cand8.tables);
    lemma_kept_indexes_push(Seq::<IndexModel>::empty(), "projects"@,
        IndexModel { name: "settings_key_index"@, table: "settings"@ });
    assert(kept_indexes(Seq::<IndexModel>::empty(), "projects"@) =~= Seq::<IndexModel>::empty());
    assert(kept_indexes(cand8.indexes, p8.target) == cand8.indexes);
    let sk = apply_statement(s7, b8[0])->Ok_0;
    assert(apply_statement(s7, b8[0]) == Result::<StoreModel, StoreError>::Ok(sk));
    lemma_run_body_step(s7, b8);
    assert(b8.drop_first() =~= Seq::<StatementModel>::empty());
    lemma_run_body_nil(sk);
    assert(run_body_spec(s7, b8) == Result::<StoreModel, StoreError>::Ok(sk));
    let s8 = recorded(sk, 8);
    assert(s8.tables.len() == 4 && s8.tables[0].name == "projects"@
        && s8.tables[0].cols == p8.def.cols
        && s8.tables[0].rows.len() == 0
        && s8.ledger == Option::Some(seq![1u64, 2u64, 3u64, 4u64, 5u64, 6u64, 7u64, 8u64]));
    // version 9: the type column, backfilled by parent
    assert(h[8] == hist_v9());
    let b9 = hist_v9().body;
    assert(!applied(s8, 9));
    lemma_first_idx_at(table_names(s8.tables), "projects"@, 0);
    lemma_first_idx_absent(col_names(s8.tables[0].cols), "type"@);
    let sl = apply_statement(s8, b9[0])->Ok_0;
    assert(apply_statement(s8, b9[0]) == Result::<StoreModel, StoreError>::Ok(sl));
    assert(sl.tables[0].cols == p8.def.cols.push(col_m("type"@, false)));
    assert(sl.tables[0].rows.len() == 0);
    lemma_first_idx_at(table_names(sl.tables), "projects"@, 0);
    lemma_first_idx_at(col_names(sl.tables[0].cols), "type"@, 3);
    lemma_first_idx_at(col_names(sl.tables[0].cols), "parent"@, 2);
    let sm = apply_statement(sl, b9[1])->Ok_0;
    assert(apply_statement(sl, b9[1]) == Result::<StoreModel, StoreError>::Ok(sm));
    assert(sm.tables[0].cols == sl.tables[0].cols && sm.tables[0].rows.len() == 0
        && sm.tables == sl.tables.update(0, TableModel {
            name: sl.tables[0].name,
            cols: sl.tables[0].cols,
            rows: sm.tables[0].rows,
        }));
    lemma_first_idx_at(table_names(sm.tables), "projects"@, 0);
    lemma_first_idx_at(col_names(sm.tables[0].cols), "type"@, 3);
    lemma_first_idx_at(col_names(sm.tables[0].cols), "parent"@, 2);
    let sn = apply_statement(sm, b9[2])->Ok_0;
    assert(apply_statement(sm, b9[2]) == Result::<StoreModel, StoreError>::Ok(sn));
    lemma_run_body_step(s8, b9);
    assert(b9.drop_first() =~= seq![b9[1], b9[2]]);
    lemma_run_body_step(sl, seq![b9[1], b9[2]]);
    assert(seq![b9[1], b9[2]].drop_first() =~= seq![b9[2]]);
    lemma_run_body_step(sm, seq![b9[2]]);
    assert(seq![b9[2]].drop_first() =~= Seq::<StatementModel>::empty());
    lemma_run_body_nil(sn);
    assert(run_body_spec(s8, b9) == Result::<StoreModel, StoreError>::Ok(sn));
    let s9 = recorded(sn, 9);
    // chain the nine migrations through the runner's walk
    let h1 = h.drop_first();
    let h2 = h1.drop_first();
    let h3 = h2.drop_first();
    let h4 = h3.drop_first();
    let h5 = h4.drop_first();
    let h6 = h5.drop_first();
    let h7 = h6.drop_first();
    let h8 = h7.drop_first();
    let h9 = h8.drop_first();
    assert(h1[0] == h[1] && h2[0] == h[2] && h3[0] == h[3] && h4[0] == h[4]
        && h5[0] == h[5] && h6[0] == h[6] && h7[0] == h[7] && h8[0] == h[8]);
    assert(h9.len() == 0);
    assert(apply_pending(s9, h9).result is Ok);
    lemma_pending_run(s8, h8, sn, 9);
    lemma_pending_run(s7, h7, sk, 8);
    lemma_pending_run(s6, h6, sj, 7);
    lemma_pending_run(s5, h5, sh, 6);
    lemma_pending_run(s4, h4, sg, 5);
    lemma_pending_run(s3, h3, sf, 4);
    lemma_pending_run(s2, h2, sd, 3);
    lemma_pending_run(s1, h1, sc, 2);
    lemma_pending_run(s0, h, sb, 1);
    assert(apply_pending(s0, h).result is Ok);
    assert(apply_outcome(fresh_store(), history()) == apply_pending(s0, h));
}

/// One walk step over an unapplied migration whose body succeeds: the
/// walk goes on from the recorded result, success carried either way.
proof fn lemma_pending_run(s: StoreModel, migs: Seq<MigrationModel>, s2: StoreModel, v: u64)
    requires
        migs.len() > 0,
        migs[0].version == v,
        !applied(s, v),
        run_body_spec(s, migs[0].body) == Result::<StoreModel, StoreError>::Ok(s2),
        apply_pending(recorded(s2, v), migs.drop_first()).result is Ok,
    ensures
        apply_pending(s, migs).result is Ok,
{
}

} // verus!
