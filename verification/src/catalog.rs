//! The migration catalog: an ordered, immutable list of migration
//! descriptors, validated once at startup.

use vstd::prelude::*;
use crate::statement::{Statement, StatementModel, stmts_model};

verus! {

/// The direction of a migration. Migrations are forward-only: no down
/// direction exists.
#[derive(Debug, Clone, Copy, PartialEq, Eq, Structural)]
pub enum Direction {
    Up,
}

/// One migration: its version (the sole identity and ordering key), a
/// human label for diagnostics, and the statements to execute. Once
/// published, a descriptor's body is the append-only historical record of
/// schema evolution and must never be edited.
#[derive(Debug, Clone, PartialEq, Eq)]
pub struct MigrationDescriptor {
    pub version: u64,
    pub description: String,
    pub body: Vec<Statement>,
    pub direction: Direction,
}

/// Model of a migration descriptor.
#[verifier::ext_equal]
pub struct MigrationModel {
    pub version: u64,
    pub description: Seq<char>,
    pub body: Seq<StatementModel>,
    pub direction: Direction,
}

impl View for MigrationDescriptor {
    type V = MigrationModel;

    open spec fn view(&self) -> MigrationModel {
        MigrationModel {
            version: self.version,
            description: self.description@,
            body: stmts_model(self.body@),
            direction: self.direction,
        }
    }
}

/// Model of a descriptor list.
pub open spec fn migs_model(migs: Seq<MigrationDescriptor>) -> Seq<MigrationModel> {
    migs.map_values(|m: MigrationDescriptor| m@)
}

/// A well-formed catalog: versions strictly increasing (hence unique) and
/// positive. Gaps are legal.
pub open spec fn catalog_valid(migs: Seq<MigrationModel>) -> bool {
    &&& forall|i: int, j: int|
        0 <= i < j < migs.len() ==> (#[trigger] migs[i]).version < (#[trigger] migs[j]).version
    &&& forall|i: int| 0 <= i < migs.len() ==> (#[trigger] migs[i]).version >= 1
}

/// Why a catalog was rejected.
#[derive(Debug, Clone, Copy, PartialEq, Eq, Structural)]
pub enum CatalogError {
    /// Two descriptors declare the same version.
    DuplicateVersion,
    /// A version is not above its predecessor (or not positive).
    NonAscendingVersion,
}

/// The first fault a single ascending walk finds, starting after
/// `last` at position `i`, or `None` for a well-formed tail.
pub open spec fn fault_from(migs: Seq<MigrationModel>, i: int, last: u64) -> Option<CatalogError>
    decreases migs.len() - i when 0 <= i <= migs.len()
{
    if i >= migs.len() {
        Option::None
    } else if migs[i].version > last {
        fault_from(migs, i + 1, migs[i].version)
    } else if last >= 1 && migs[i].version == last {
        Option::Some(CatalogError::DuplicateVersion)
    } else {
        Option::Some(CatalogError::NonAscendingVersion)
    }
}

/// The fault of the whole catalog, if any.
pub open spec fn catalog_fault(migs: Seq<MigrationModel>) -> Option<CatalogError> {
    fault_from(migs, 0, 0)
}

/// The walk finds no fault exactly when the tail ascends strictly above
/// `last`.
pub proof fn lemma_fault_from(migs: Seq<MigrationModel>, i: int, last: u64)
    requires
        0 <= i <= migs.len(),
    ensures
        (fault_from(migs, i, last) is None) <==> {
            &&& forall|a: int, b: int|
                i <= a < b < migs.len() ==> (#[trigger] migs[a]).version < (#[trigger] migs[b]).version
            &&& forall|a: int| i <= a < migs.len() ==> (#[trigger] migs[a]).version > last
        },
    decreases migs.len() - i,
{
    if i >= migs.len() {
    } else if migs[i].version > last {
        lemma_fault_from(migs, i + 1, migs[i].version);
    }
}

/// No fault means a valid catalog, and the other way round.
pub proof fn lemma_fault_valid(migs: Seq<MigrationModel>)
    ensures
        (catalog_fault(migs) is None) <==> catalog_valid(migs),
{
    lemma_fault_from(migs, 0, 0);
}

/// The catalog: an ordered list of migration descriptors whose versions
/// strictly ascend when it comes out of `load`; `apply` takes any value
/// and needs no validity, the laws ask for `catalog_valid`.
#[derive(Debug, Clone, PartialEq, Eq)]
pub struct Catalog {
    pub migrations: Vec<MigrationDescriptor>,
}

impl View for Catalog {
    type V = Seq<MigrationModel>;

    open spec fn view(&self) -> Seq<MigrationModel> {
        migs_model(self.migrations@)
    }
}

impl Catalog {
    /// Validates and wraps an ordered descriptor list: pure and
    /// deterministic, refused if two descriptors share a version or the
    /// sequence is not strictly increasing, before any statement runs.
    pub fn load(list: Vec<MigrationDescriptor>) -> (r: Result<Catalog, CatalogError>)
        ensures
            match r {
                Result::Ok(c) => c@ == migs_model(list@) && catalog_valid(c@)
                    && catalog_fault(migs_model(list@)) is None,
                Result::Err(e) => catalog_fault(migs_model(list@)) == Option::Some(e)
                    && !catalog_valid(migs_model(list@)),
            },
    {
        let ghost mm = migs_model(list@);
        let mut last: u64 = 0;
        let mut i: usize = 0;
        while i < list.len()
            invariant
                i <= list@.len(),
                mm == migs_model(list@),
                mm.len() == list@.len(),
                catalog_fault(mm) == fault_from(mm, i as int, last),
            decreases list@.len() - i,
        {
            proof {
                assert(mm[i as int] == list@[i as int]@);
            }
            let v = list[i].version;
            if v > last {
                last = v;
            } else if last >= 1 && v == last {
                proof {
                    lemma_fault_valid(mm);
                }
                return Result::Err(CatalogError::DuplicateVersion);
            } else {
                proof {
                    lemma_fault_valid(mm);
                }
                return Result::Err(CatalogError::NonAscendingVersion);
            }
            i += 1;
        }
        proof {
            lemma_fault_valid(mm);
        }
        Result::Ok(Catalog { migrations: list })
    }

    /// How many migrations the catalog holds.
    pub fn len(&self) -> (r: usize)
        ensures
            r == self@.len(),
    {
        self.migrations.len()
    }
}

} // verus!
