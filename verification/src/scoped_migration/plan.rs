//! The plan of a run: which migrations of a bundle still have to be applied.
use crate::scoped_migration::bundle::{
    accepted_bundle_is_ordered, migration_views, BundleView, MigrationBundle,
};
use crate::scoped_migration::error::{MigrationError, MigrationErrorView};
use crate::scoped_migration::migration::{Dialect, Migration, MigrationView};
use std::collections::BTreeMap;
use vstd::prelude::*;
use vstd::std_specs::btree::*;

verus! {

/// One migration that a runner applied (or confirmed) during a run.
#[derive(Debug, Clone, PartialEq, Eq)]
pub struct AppliedMigration {
    pub bundle_id: String,
    pub version: i64,
    pub checksum: String,
    pub description: String,
}

/// A ledger: the checksum recorded for each applied version.
pub open spec fn ledger_view(applied: Map<i64, String>) -> Map<i64, Seq<char>> {
    applied.map_values(|checksum: String| checksum@)
}

/// The ledger records a version that the bundle does not declare.
pub open spec fn unknown(bundle: BundleView, applied: Map<i64, Seq<char>>, version: i64) -> bool {
    applied.contains_key(version) && !bundle.declares(version)
}

/// The least version of the ledger that the bundle does not declare.
pub open spec fn least_unknown(
    bundle: BundleView,
    applied: Map<i64, Seq<char>>,
    version: i64,
) -> bool {
    &&& unknown(bundle, applied, version)
    &&& forall|other: i64| #[trigger] unknown(bundle, applied, other) ==> version <= other
}

/// The ledger records the migration's version with a checksum that is not one of
/// the migration's.
pub open spec fn drifted(
    migration: MigrationView,
    applied: Map<i64, Seq<char>>,
    dialect: Dialect,
) -> bool {
    applied.contains_key(migration.version) && !migration.accepts(
        dialect,
        applied[migration.version],
    )
}

/// Those of the migrations whose version the ledger does not record, in order.
pub open spec fn unrecorded(
    migrations: Seq<MigrationView>,
    applied: Map<i64, Seq<char>>,
) -> Seq<MigrationView> {
    migrations.filter(|migration: MigrationView| !applied.contains_key(migration.version))
}

/// The first migration whose recorded checksum is not one of its own.
pub open spec fn first_drift(
    bundle: BundleView,
    applied: Map<i64, Seq<char>>,
    dialect: Dialect,
    i: int,
) -> bool {
    &&& 0 <= i < bundle.migrations.len()
    &&& drifted(bundle.migrations[i], applied, dialect)
    &&& forall|j: int| 0 <= j < i ==> !drifted(#[trigger] bundle.migrations[j], applied, dialect)
}

/// The bundle and the ledger agree: every recorded version is declared, with a
/// checksum that its migration accepts.
pub open spec fn agrees(bundle: BundleView, applied: Map<i64, Seq<char>>, dialect: Dialect) -> bool {
    &&& forall|version: i64| !#[trigger] unknown(bundle, applied, version)
    &&& forall|i: int|
        0 <= i < bundle.migrations.len() ==> !drifted(
            #[trigger] bundle.migrations[i],
            applied,
            dialect,
        )
}

/// `r` is the plan of a bundle against a ledger. Where the two agree it is the
/// unrecorded migrations in order. Otherwise it is an error: the least unknown
/// version if there is one, else the first drifted migration, with the recorded
/// checksum as the expected one and the recomputed as the actual.
pub open spec fn is_plan(
    bundle: BundleView,
    applied: Map<i64, Seq<char>>,
    dialect: Dialect,
    r: Result<Seq<MigrationView>, MigrationErrorView>,
) -> bool {
    match r {
        Ok(pending) => agrees(bundle, applied, dialect) && pending == unrecorded(
            bundle.migrations,
            applied,
        ),
        Err(fault) => {
            ||| exists|version: i64| #[trigger]
                least_unknown(bundle, applied, version) && fault
                    == (MigrationErrorView::UnknownAppliedVersion {
                    bundle_id: bundle.bundle_id,
                    version,
                })
            ||| exists|i: int| #[trigger]
                first_drift(bundle, applied, dialect, i) && (forall|version: i64|
                    !#[trigger] unknown(bundle, applied, version)) && fault
                    == (MigrationErrorView::ChecksumMismatch {
                    bundle_id: bundle.bundle_id,
                    version: bundle.migrations[i].version,
                    expected: applied[bundle.migrations[i].version],
                    actual: bundle.migrations[i].checksum_for(dialect),
                })
        },
    }
}

/// A plan by its views.
pub open spec fn plan_view(r: Result<Vec<&Migration>, MigrationError>) -> Result<
    Seq<MigrationView>,
    MigrationErrorView,
> {
    match r {
        Ok(pending) => Ok(pending@.map_values(|migration: &Migration| migration@)),
        Err(error) => Err(error@),
    }
}

/// Whether some migration of the bundle has the version.
fn declared(bundle: &MigrationBundle, version: i64) -> (found: bool)
    ensures
        found == bundle@.declares(version),
{
    let migrations = bundle.migrations();
    let ghost all = bundle@.migrations;
    let mut i: usize = 0;
    while i < migrations.len()
        invariant
            i <= migrations@.len(),
            all == bundle@.migrations,
            all == migration_views(migrations@),
            forall|k: int| 0 <= k < i ==> #[trigger] all[k].version != version,
        decreases migrations@.len() - i,
    {
        assert(all[i as int] == migrations@[i as int]@);
        if migrations[i].version() == version {
            return true;
        }
        i += 1;
    }
    false
}

/// Refuse a ledger that records a version which the bundle does not declare.
fn validate_applied_versions(bundle: &MigrationBundle, applied: &BTreeMap<i64, String>) -> (r:
    Result<(), MigrationError>)
    ensures
        match r {
            Ok(()) => forall|version: i64|
                !#[trigger] unknown(bundle@, ledger_view(applied@), version),
            Err(error) => exists|version: i64| #[trigger]
                least_unknown(bundle@, ledger_view(applied@), version) && error@
                    == (MigrationErrorView::UnknownAppliedVersion {
                    bundle_id: bundle@.bundle_id,
                    version,
                }),
        },
{
    broadcast use {group_btree_axioms, vstd::laws_cmp::group_laws_cmp};

    let ghost ledger = ledger_view(applied@);
    let mut least: Option<i64> = None;
    for key in it: applied.keys()
        invariant
            it.seq().unref().to_set() == applied@.dom(),
            ledger == ledger_view(applied@),
            least is None ==> forall|k: int|
                0 <= k < it.index() ==> !unknown(bundle@, ledger, *#[trigger] it.seq()[k]),
            least is Some ==> unknown(bundle@, ledger, least->0) && forall|k: int|
                0 <= k < it.index() && unknown(bundle@, ledger, *#[trigger] it.seq()[k])
                    ==> least->0 <= *it.seq()[k],
    {
        let version: i64 = *key;
        proof {
            assert(it.seq().unref()[it.index()] == version);
            assert(it.seq().unref().to_set().contains(version));
        }
        if !declared(bundle, version) {
            least = match least {
                Some(smaller) if smaller <= version => Some(smaller),
                _ => Some(version),
            };
        }
    }
    assert forall|version: i64| #[trigger] unknown(bundle@, ledger, version) implies least is Some
        && least->0 <= version by {
        assert(applied@.dom().contains(version));
    }
    match least {
        Some(version) => {
            assert(least_unknown(bundle@, ledger, version));
            Err(
                MigrationError::UnknownAppliedVersion {
                    bundle_id: bundle.bundle_id().to_owned(),
                    version,
                },
            )
        },
        None => Ok(()),
    }
}

/// Decide which migrations in `bundle` still need to run, given the versions
/// already recorded in the ledger (`applied`: version to checksum).
///
/// Pure and backend-agnostic: it performs every interesting decision (unknown
/// applied version, checksum drift, and already-applied skip) and returns the
/// migrations to apply in order. A backend shell only fetches `applied`, calls
/// this with its own `dialect`, and applies the result with its own driver.
pub fn plan<'a>(
    bundle: &'a MigrationBundle,
    applied: &BTreeMap<i64, String>,
    dialect: Dialect,
) -> (r: Result<Vec<&'a Migration>, MigrationError>)
    ensures
        is_plan(bundle@, ledger_view(applied@), dialect, plan_view(r)),
{
    broadcast use {group_btree_axioms, vstd::laws_cmp::group_laws_cmp};

    if let Err(error) = validate_applied_versions(bundle, applied) {
        return Err(error);
    }
    let ghost ledger = ledger_view(applied@);
    let ghost all = bundle@.migrations;
    let migrations = bundle.migrations();
    let mut pending: Vec<&'a Migration> = Vec::new();
    let mut i: usize = 0;
    proof {
        lemma_unrecorded_prefix(all, ledger, 0);
        assert(pending@.map_values(|migration: &Migration| migration@) =~= Seq::empty());
    }
    while i < migrations.len()
        invariant
            i <= migrations@.len(),
            ledger == ledger_view(applied@),
            all == bundle@.migrations,
            all == migration_views(migrations@),
            forall|version: i64| !#[trigger] unknown(bundle@, ledger, version),
            forall|j: int| 0 <= j < i ==> !drifted(#[trigger] all[j], ledger, dialect),
            pending@.map_values(|migration: &Migration| migration@) == unrecorded(
                first(all, i),
                ledger,
            ),
        decreases migrations@.len() - i,
    {
        let migration = &migrations[i];
        let ghost before = pending@;
        proof {
            lemma_unrecorded_prefix(all, ledger, i + 1);
        }
        match applied.get(&migration.version()) {
            Some(existing) => {
                if !migration.accepts_recorded(dialect, existing.as_str()) {
                    let error = MigrationError::ChecksumMismatch {
                        bundle_id: bundle.bundle_id().to_owned(),
                        version: migration.version(),
                        expected: existing.clone(),
                        actual: migration.checksum_for(dialect),
                    };
                    proof {
                        lemma_names_drift(bundle@, ledger, dialect, i);
                    }
                    return Err(error);
                }
            },
            None => {
                pending.push(migration);
                assert(pending@.map_values(|migration: &Migration| migration@) =~= before.map_values(
                    |migration: &Migration| migration@,
                ).push(migration@));
            },
        }
        i += 1;
    }
    Ok(pending)
}

/// The first `n` migrations.
spec fn first(migrations: Seq<MigrationView>, n: usize) -> Seq<MigrationView> {
    migrations.take(n as int)
}

proof fn lemma_unrecorded_prefix(
    migrations: Seq<MigrationView>,
    applied: Map<i64, Seq<char>>,
    n: int,
)
    requires
        0 <= n <= migrations.len(),
    ensures
        n == 0 ==> unrecorded(migrations.take(n), applied) == Seq::<MigrationView>::empty(),
        n > 0 && applied.contains_key(migrations[n - 1].version) ==> unrecorded(
            migrations.take(n),
            applied,
        ) == unrecorded(migrations.take(n - 1), applied),
        n > 0 && !applied.contains_key(migrations[n - 1].version) ==> unrecorded(
            migrations.take(n),
            applied,
        ) == unrecorded(migrations.take(n - 1), applied).push(migrations[n - 1]),
        migrations.take(migrations.len() as int) == migrations,
{
    reveal(Seq::filter);
    assert(migrations.take(migrations.len() as int) =~= migrations);
    if n > 0 {
        assert(migrations.take(n).drop_last() =~= migrations.take(n - 1));
    }
}

proof fn lemma_names_drift(
    bundle: BundleView,
    applied: Map<i64, Seq<char>>,
    dialect: Dialect,
    i: usize,
)
    requires
        i < bundle.migrations.len(),
        drifted(bundle.migrations[i as int], applied, dialect),
        forall|j: int| 0 <= j < i ==> !drifted(#[trigger] bundle.migrations[j], applied, dialect),
    ensures
        first_drift(bundle, applied, dialect, i as int),
{
}

/// A plan fails closed: it exists exactly where bundle and ledger agree. A ledger
/// that records a version which the bundle does not declare, or a checksum that is
/// not one of its migration's, never yields one.
pub proof fn plans_fail_closed(
    bundle: BundleView,
    applied: Map<i64, Seq<char>>,
    dialect: Dialect,
    r: Result<Seq<MigrationView>, MigrationErrorView>,
)
    requires
        is_plan(bundle, applied, dialect, r),
    ensures
        r is Ok <==> agrees(bundle, applied, dialect),
{
}

/// The ledger after the first `n` of the pending migrations were recorded under
/// their checksums.
pub open spec fn recorded(
    applied: Map<i64, Seq<char>>,
    pending: Seq<MigrationView>,
    dialect: Dialect,
    n: nat,
) -> Map<i64, Seq<char>>
    decreases n,
{
    if n == 0 {
        applied
    } else {
        let migration = pending[n - 1];
        recorded(applied, pending, dialect, (n - 1) as nat).insert(
            migration.version,
            migration.checksum_for(dialect),
        )
    }
}

spec fn distinct(migrations: Seq<MigrationView>) -> bool {
    forall|i: int, j: int|
        0 <= i < j < migrations.len() ==> #[trigger] migrations[i].version
            != #[trigger] migrations[j].version
}

proof fn lemma_unrecorded_head(
    migrations: Seq<MigrationView>,
    applied: Map<i64, Seq<char>>,
    checksum: Seq<char>,
)
    requires
        distinct(migrations),
        unrecorded(migrations, applied).len() > 0,
    ensures
        ({
            let pending = unrecorded(migrations, applied);
            let after = applied.insert(pending[0].version, checksum);
            &&& migrations.contains(pending[0])
            &&& unrecorded(migrations, after) == pending.drop_first()
        }),
    decreases migrations.len(),
{
    reveal(Seq::filter);
    if migrations.len() > 0 {
        let shorter = migrations.drop_last();
        let last = migrations.last();
        let pending = unrecorded(migrations, applied);
        let after = applied.insert(pending[0].version, checksum);
        assert(distinct(shorter));
        if unrecorded(shorter, applied).len() > 0 {
            lemma_unrecorded_head(shorter, applied, checksum);
            let k = choose|k: int| 0 <= k < shorter.len() && shorter[k] == unrecorded(
                shorter,
                applied,
            )[0];
            assert(migrations[k] == pending[0]);
            assert(migrations[k].version != migrations[migrations.len() - 1].version);
            if applied.contains_key(last.version) {
                assert(unrecorded(migrations, after) =~= pending.drop_first());
            } else {
                assert(pending.drop_first() =~= unrecorded(shorter, applied).drop_first().push(
                    last,
                ));
            }
        } else {
            lemma_all_recorded(shorter, applied, after);
            assert(pending =~= seq![last]);
            assert(migrations[migrations.len() - 1] == pending[0]);
            assert(unrecorded(migrations, after) =~= pending.drop_first());
        }
    }
}

/// Recording more leaves nothing pending where nothing was.
proof fn lemma_all_recorded(
    migrations: Seq<MigrationView>,
    applied: Map<i64, Seq<char>>,
    after: Map<i64, Seq<char>>,
)
    requires
        unrecorded(migrations, applied).len() == 0,
        applied.dom().subset_of(after.dom()),
    ensures
        unrecorded(migrations, after).len() == 0,
    decreases migrations.len(),
{
    reveal(Seq::filter);
    if migrations.len() > 0 {
        lemma_all_recorded(migrations.drop_last(), applied, after);
    }
}

/// A run that was interrupted after `n` migrations resumes where it stopped:
/// against the ledger that it left behind, the plan is the rest of the pending
/// migrations, and nothing is applied twice. After a complete run nothing is
/// pending.
pub proof fn plan_resumes_where_a_run_stopped(
    bundle: BundleView,
    applied: Map<i64, Seq<char>>,
    dialect: Dialect,
    n: nat,
)
    requires
        bundle.fault() is None,
        agrees(bundle, applied, dialect),
        n <= unrecorded(bundle.migrations, applied).len(),
    ensures
        ({
            let pending = unrecorded(bundle.migrations, applied);
            is_plan(
                bundle,
                recorded(applied, pending, dialect, n),
                dialect,
                Ok(pending.skip(n as int)),
            )
        }),
    decreases n,
{
    let pending = unrecorded(bundle.migrations, applied);
    accepted_bundle_is_ordered(bundle);
    if n == 0 {
        assert(pending.skip(0) =~= pending);
    } else {
        let m = (n - 1) as nat;
        plan_resumes_where_a_run_stopped(bundle, applied, dialect, m);
        let ledger = recorded(applied, pending, dialect, m);
        let after = recorded(applied, pending, dialect, n);
        let next = pending[m as int];
        assert(unrecorded(bundle.migrations, ledger) == pending.skip(m as int));
        assert(pending.skip(m as int)[0] == next);
        lemma_unrecorded_head(bundle.migrations, ledger, next.checksum_for(dialect));
        assert(pending.skip(m as int).drop_first() =~= pending.skip(n as int));
        let k = choose|k: int| 0 <= k < bundle.migrations.len() && bundle.migrations[k] == next;
        assert forall|version: i64| !#[trigger] unknown(bundle, after, version) by {
            assert(!unknown(bundle, ledger, version));
            if version == next.version {
                assert(bundle.migrations[k].version == version);
            }
        }
        assert forall|i: int| 0 <= i < bundle.migrations.len() implies !drifted(
            #[trigger] bundle.migrations[i],
            after,
            dialect,
        ) by {
            assert(!drifted(bundle.migrations[i], ledger, dialect));
            if bundle.migrations[i].version == next.version {
                assert(i == k);
            }
        }
    }
}

/// The checksum is one that ledgers may hold for the migration: its own, or one that it was
/// published with before.
pub open spec fn is_checksum_of(
    checksum: Seq<char>,
    migration: MigrationView,
    dialect: Dialect,
) -> bool {
    ||| checksum == migration.checksum_for(dialect)
    ||| migration.body is PublishedLegacy && migration.body->aliases.contains(checksum)
}

/// Row `version` of the ledger belongs to migration `i` of the bundle, and fits it.
pub open spec fn row_fits(
    bundle: BundleView,
    applied: Map<i64, Seq<char>>,
    dialect: Dialect,
    version: i64,
    i: int,
) -> bool {
    &&& 0 <= i < bundle.migrations.len()
    &&& bundle.migrations[i].version == version
    &&& is_checksum_of(applied[version], bundle.migrations[i], dialect)
}

/// A plan accounts for every row and every migration. It is refused unless each row of
/// the ledger belongs to a migration of the bundle and has its checksum; and what is
/// pending is, in the bundle's order, exactly the migrations that have no row.
pub proof fn plans_account_for_everything(
    bundle: BundleView,
    applied: Map<i64, Seq<char>>,
    dialect: Dialect,
    r: Result<Seq<MigrationView>, MigrationErrorView>,
)
    requires
        bundle.fault() is None,
        is_plan(bundle, applied, dialect, r),
    ensures
        r is Ok <==> forall|version: i64| #[trigger]
            applied.contains_key(version) ==> exists|i: int| #[trigger]
                row_fits(bundle, applied, dialect, version, i),
        r is Ok ==> {
            let pending = r->Ok_0;
            &&& forall|i: int|
                0 <= i < bundle.migrations.len() ==> (pending.contains(
                    #[trigger] bundle.migrations[i],
                ) <==> !applied.contains_key(bundle.migrations[i].version))
            &&& forall|i: int|
                0 <= i < pending.len() ==> bundle.migrations.contains(#[trigger] pending[i])
            &&& forall|i: int, j: int|
                0 <= i < j < pending.len() ==> (#[trigger] pending[i]).version
                    < (#[trigger] pending[j]).version
        },
{
    accepted_bundle_is_ordered(bundle);
    let all = bundle.migrations;
    if agrees(bundle, applied, dialect) {
        assert forall|version: i64| #[trigger] applied.contains_key(version) implies exists|i: int|
            #[trigger] row_fits(bundle, applied, dialect, version, i) by {
            assert(!unknown(bundle, applied, version));
            let i = choose|i: int| 0 <= i < all.len() && #[trigger] all[i].version == version;
            assert(!drifted(all[i], applied, dialect));
            assert(row_fits(bundle, applied, dialect, version, i));
        }
    }
    if forall|version: i64| #[trigger]
        applied.contains_key(version) ==> exists|i: int| #[trigger]
            row_fits(bundle, applied, dialect, version, i) {
        assert forall|version: i64| !#[trigger] unknown(bundle, applied, version) by {
            if applied.contains_key(version) {
                let i = choose|i: int| #[trigger] row_fits(bundle, applied, dialect, version, i);
                assert(all[i].version == version);
            }
        }
        assert forall|k: int| 0 <= k < all.len() implies !drifted(
            #[trigger] all[k],
            applied, dialect,
        ) by {
            if applied.contains_key(all[k].version) {
                let i = choose|i: int| #[trigger] row_fits(bundle, applied, dialect, all[k].version, i);
                if i < k {
                    assert(all[i].version < all[k].version);
                } else if k < i {
                    assert(all[k].version < all[i].version);
                }
            }
        }
        assert(agrees(bundle, applied, dialect));
    }
    if r is Ok {
        lemma_pending(all, applied);
    }
}

proof fn lemma_pending(migrations: Seq<MigrationView>, applied: Map<i64, Seq<char>>)
    requires
        forall|i: int, j: int|
            0 <= i < j < migrations.len() ==> (#[trigger] migrations[i]).version
                < (#[trigger] migrations[j]).version,
    ensures
        ({
            let pending = unrecorded(migrations, applied);
            &&& forall|i: int|
                0 <= i < migrations.len() ==> (pending.contains(#[trigger] migrations[i])
                    <==> !applied.contains_key(migrations[i].version))
            &&& forall|i: int|
                0 <= i < pending.len() ==> migrations.contains(#[trigger] pending[i])
                    && !applied.contains_key(pending[i].version)
            &&& forall|i: int, j: int|
                0 <= i < j < pending.len() ==> (#[trigger] pending[i]).version
                    < (#[trigger] pending[j]).version
        }),
    decreases migrations.len(),
{
    reveal(Seq::filter);
    let keep = |migration: MigrationView| !applied.contains_key(migration.version);
    let pending = unrecorded(migrations, applied);
    if migrations.len() > 0 {
        let rest = migrations.drop_last();
        let last = migrations.last();
        let before = unrecorded(rest, applied);
        assert forall|i: int, j: int| 0 <= i < j < rest.len() implies (#[trigger] rest[i]).version
            < (#[trigger] rest[j]).version by {
            assert(migrations[i].version < migrations[j].version);
        }
        lemma_pending(rest, applied);
        assert(pending == (if keep(last) {
            before.push(last)
        } else {
            before
        }));
        assert forall|i: int| 0 <= i < before.len() implies migrations.contains(
            #[trigger] before[i],
        ) && before[i].version < last.version by {
            assert(rest.contains(before[i]));
            let k = choose|k: int| 0 <= k < rest.len() && rest[k] == before[i];
            assert(migrations[k] == before[i]);
            assert(migrations[k].version < migrations[migrations.len() - 1].version);
        }
        assert(migrations[migrations.len() - 1] == last);
        assert forall|i: int| 0 <= i < migrations.len() implies (pending.contains(
            #[trigger] migrations[i],
        ) <==> !applied.contains_key(migrations[i].version)) by {
            let m = migrations[i];
            if i < rest.len() {
                assert(rest[i] == m);
                if before.contains(m) {
                    let k = choose|k: int| 0 <= k < before.len() && before[k] == m;
                    assert(pending[k] == m);
                }
            } else if keep(last) {
                assert(pending[before.len() as int] == last);
            }
            if pending.contains(m) {
                let k = choose|k: int| 0 <= k < pending.len() && pending[k] == m;
                if k < before.len() {
                    assert(pending[k] == before[k]);
                }
            }
        }
    }
}

} // verus!
