//! Bundles of migrations, and the lint over a whole set of bundles.
use crate::identifier::{bundle_id_valid, is_bundle_id};
use crate::scoped_migration::error::{MigrationError, MigrationErrorView};
use crate::scoped_migration::migration::{is_verdict, Migration, MigrationView};
use crate::scoped_migration::words::{scan_tables, tables_of, TableNames, TableScan};
use crate::text::{same_text, texts};
use vstd::prelude::*;

verus! {

/// A service-owned, independently versioned migration stream.
///
/// Bundles carry no cross-bundle dependencies: services are deployed split or
/// aggregated, so no bundle may hard-couple to another. When several bundles
/// share one database, execution order is the registration order passed to the
/// backend runner.
#[derive(Debug, Clone, PartialEq, Eq)]
pub struct MigrationBundle {
    bundle_id: String,
    migrations: Vec<Migration>,
}

/// What a bundle is: its id and its migrations in order.
pub struct BundleView {
    pub bundle_id: Seq<char>,
    pub migrations: Seq<MigrationView>,
}

/// The views of a sequence of migrations.
pub open spec fn migration_views(migrations: Seq<Migration>) -> Seq<MigrationView> {
    migrations.map_values(|migration: Migration| migration@)
}

impl View for MigrationBundle {
    type V = BundleView;

    closed spec fn view(&self) -> BundleView {
        BundleView {
            bundle_id: self.bundle_id@,
            migrations: migration_views(self.migrations@),
        }
    }
}

/// The version that stands before position `i`, or zero.
pub open spec fn version_before(migrations: Seq<MigrationView>, i: int) -> i64 {
    if i > 0 {
        migrations[i - 1].version
    } else {
        0
    }
}

/// The first fault among the first `n` migrations of a bundle.
pub open spec fn order_fault(
    bundle_id: Seq<char>,
    migrations: Seq<MigrationView>,
    n: nat,
) -> Option<MigrationErrorView>
    decreases n,
{
    if n == 0 {
        None
    } else {
        let i = n - 1;
        let version = migrations[i].version;
        match order_fault(bundle_id, migrations, i as nat) {
            Some(fault) => Some(fault),
            None => if migrations[i].fault() is Some {
                migrations[i].fault()
            } else if exists|j: int| 0 <= j < i && #[trigger] migrations[j].version == version {
                Some(MigrationErrorView::DuplicateMigrationVersion { bundle_id, version })
            } else if version <= version_before(migrations, i) {
                Some(
                    MigrationErrorView::InvalidMigrationOrder {
                        bundle_id,
                        previous: version_before(migrations, i),
                        current: version,
                    },
                )
            } else {
                None
            },
        }
    }
}

impl BundleView {
    /// Why the bundle is refused, if it is.
    pub open spec fn fault(self) -> Option<MigrationErrorView> {
        if !is_bundle_id(self.bundle_id) {
            Some(MigrationErrorView::InvalidBundleId(self.bundle_id))
        } else {
            order_fault(self.bundle_id, self.migrations, self.migrations.len())
        }
    }

    /// The versions are positive and strictly increasing.
    pub open spec fn ordered(self) -> bool {
        &&& forall|i: int| 0 <= i < self.migrations.len() ==> #[trigger] self.migrations[i].version > 0
        &&& forall|i: int, j: int|
            0 <= i < j < self.migrations.len() ==> #[trigger] self.migrations[i].version
                < #[trigger] self.migrations[j].version
    }

    /// Some migration of the bundle has this version.
    pub open spec fn declares(self, version: i64) -> bool {
        exists|i: int| 0 <= i < self.migrations.len() && #[trigger] self.migrations[i].version == version
    }
}

/// A bundle without a fault has positive, strictly increasing versions, and no
/// migration of it has a fault.
pub proof fn accepted_bundle_is_ordered(bundle: BundleView)
    requires
        bundle.fault() is None,
    ensures
        bundle.ordered(),
        forall|i: int|
            0 <= i < bundle.migrations.len() ==> (#[trigger] bundle.migrations[i]).fault() is None,
{
    lemma_ordered_prefix(bundle, bundle.migrations.len());
}

proof fn lemma_ordered_prefix(bundle: BundleView, n: nat)
    requires
        n <= bundle.migrations.len(),
        order_fault(bundle.bundle_id, bundle.migrations, n) is None,
    ensures
        forall|i: int| 0 <= i < n ==> #[trigger] bundle.migrations[i].version > 0,
        forall|i: int, j: int|
            0 <= i < j < n ==> #[trigger] bundle.migrations[i].version
                < #[trigger] bundle.migrations[j].version,
        forall|i: int| 0 <= i < n ==> (#[trigger] bundle.migrations[i]).fault() is None,
    decreases n,
{
    if n > 0 {
        lemma_ordered_prefix(bundle, (n - 1) as nat);
    }
}

impl MigrationBundle {
    pub fn new(bundle_id: &str, migrations: Vec<Migration>) -> (r: Result<Self, MigrationError>)
        ensures
            ({
                let wanted = BundleView {
                    bundle_id: bundle_id@,
                    migrations: migration_views(migrations@),
                };
                match r {
                    Ok(bundle) => wanted.fault() is None && bundle@ == wanted,
                    Err(error) => wanted.fault() == Some(error@),
                }
            }),
    {
        let bundle = MigrationBundle { bundle_id: bundle_id.to_owned(), migrations };
        match bundle.validate() {
            Ok(()) => Ok(bundle),
            Err(error) => Err(error),
        }
    }

    pub fn bundle_id(&self) -> (id: &str)
        ensures
            id@ == self@.bundle_id,
    {
        self.bundle_id.as_str()
    }

    pub fn migrations(&self) -> (migrations: &[Migration])
        ensures
            migration_views(migrations@) == self@.migrations,
    {
        self.migrations.as_slice()
    }

    /// Whether some migration before position `i` has the version of the one
    /// there.
    fn repeats(&self, i: usize) -> (repeated: bool)
        requires
            i < self@.migrations.len(),
        ensures
            repeated == exists|j: int|
                0 <= j < i && #[trigger] self@.migrations[j].version
                    == self@.migrations[i as int].version,
    {
        let mut j: usize = 0;
        while j < i
            invariant
                j <= i < self@.migrations.len(),
                self@.migrations == migration_views(self.migrations@),
                forall|k: int|
                    0 <= k < j ==> #[trigger] self@.migrations[k].version
                        != self@.migrations[i as int].version,
            decreases i - j,
        {
            assert(self@.migrations[j as int] == self.migrations@[j as int]@);
            if self.migrations[j].version() == self.migrations[i].version() {
                return true;
            }
            j += 1;
        }
        false
    }

    /// Whether the id is valid and the versions are positive and strictly
    /// increasing, each migration being valid by itself.
    pub(crate) fn validate(&self) -> (r: Result<(), MigrationError>)
        ensures
            is_verdict(r, self@.fault()),
    {
        if !bundle_id_valid(self.bundle_id.as_str()) {
            return Err(MigrationError::InvalidBundleId(self.bundle_id.clone()));
        }
        let ghost all = self@.migrations;
        let mut previous: i64 = 0;
        let mut i: usize = 0;
        while i < self.migrations.len()
            invariant
                i <= self.migrations@.len(),
                is_bundle_id(self.bundle_id@),
                all == self@.migrations,
                all == migration_views(self.migrations@),
                self@.bundle_id == self.bundle_id@,
                previous == version_before(all, i as int),
                order_fault(self@.bundle_id, all, i as nat) is None,
            decreases self.migrations@.len() - i,
        {
            let migration = &self.migrations[i];
            assert(all[i as int] == migration@);
            proof {
                lemma_fault_persists(self@, (i + 1) as nat);
            }
            if let Err(error) = migration.validate() {
                return Err(error);
            }
            let version: i64 = migration.version();
            if self.repeats(i) {
                return Err(
                    MigrationError::DuplicateMigrationVersion {
                        bundle_id: self.bundle_id.clone(),
                        version,
                    },
                );
            }
            if version <= previous {
                return Err(
                    MigrationError::InvalidMigrationOrder {
                        bundle_id: self.bundle_id.clone(),
                        previous,
                        current: version,
                    },
                );
            }
            previous = version;
            i += 1;
        }
        Ok(())
    }
}

/// The first fault of a prefix is the fault of the bundle.
proof fn lemma_fault_persists(bundle: BundleView, n: nat)
    requires
        n <= bundle.migrations.len(),
    ensures
        order_fault(bundle.bundle_id, bundle.migrations, n) is Some ==> order_fault(
            bundle.bundle_id,
            bundle.migrations,
            bundle.migrations.len(),
        ) == order_fault(bundle.bundle_id, bundle.migrations, n),
    decreases bundle.migrations.len() - n,
{
    if n < bundle.migrations.len() {
        lemma_fault_persists(bundle, n + 1);
    }
}

/// The table names of several bodies, in order.
pub open spec fn names_of_bodies(bodies: Seq<Seq<char>>) -> TableNames
    decreases bodies.len(),
{
    if bodies.len() == 0 {
        TableNames::none()
    } else {
        names_of_bodies(bodies.drop_last()).followed_by(tables_of(bodies.last()))
    }
}

impl MigrationView {
    /// The tables that the migration creates and refers to, over all its bodies.
    pub open spec fn tables(self) -> TableNames {
        names_of_bodies(self.bodies())
    }
}

impl BundleView {
    /// Some migration of the bundle creates the table.
    pub open spec fn creates(self, table: Seq<char>) -> bool {
        exists|i: int|
            0 <= i < self.migrations.len() && (#[trigger] self.migrations[i]).tables().created.contains(
                table,
            )
    }

    /// The first `k` tables that migration `i` refers to are all created by the
    /// bundle.
    pub open spec fn owns_first(self, i: int, k: int) -> bool {
        forall|j: int|
            0 <= j < k ==> self.creates(#[trigger] self.migrations[i].tables().referenced[j])
    }

    /// Every table that the bundle refers to is one that it creates.
    pub open spec fn independent(self) -> bool {
        forall|i: int|
            0 <= i < self.migrations.len() ==> self.owns_first(
                i,
                (#[trigger] self.migrations[i]).tables().referenced.len() as int,
            )
    }

    /// The table at place `k` of migration `i` is the first one that the bundle
    /// refers to and does not create.
    pub open spec fn first_foreign(self, i: int, k: int) -> bool {
        &&& 0 <= i < self.migrations.len()
        &&& 0 <= k < self.migrations[i].tables().referenced.len()
        &&& !self.creates(self.migrations[i].tables().referenced[k])
        &&& self.owns_first(i, k)
        &&& forall|h: int|
            0 <= h < i ==> self.owns_first(
                h,
                (#[trigger] self.migrations[h]).tables().referenced.len() as int,
            )
    }
}

/// Whether `r` is the answer of the independence check: success for an
/// independent bundle, otherwise the first foreign table.
pub open spec fn independence_verdict(bundle: BundleView, r: Result<(), MigrationErrorView>) -> bool {
    match r {
        Ok(()) => bundle.independent(),
        Err(fault) => exists|i: int, k: int| #[trigger]
            bundle.first_foreign(i, k) && fault == (MigrationErrorView::CrossBundleReference {
                bundle_id: bundle.bundle_id,
                version: bundle.migrations[i].version,
                table: bundle.migrations[i].tables().referenced[k],
            }),
    }
}

/// An error by its view.
pub open spec fn outcome(r: Result<(), MigrationError>) -> Result<(), MigrationErrorView> {
    match r {
        Ok(()) => Ok(()),
        Err(error) => Err(error@),
    }
}

/// The tables over all bodies of a migration.
fn scan_migration(migration: &Migration) -> (scan: TableScan)
    ensures
        scan@ == migration@.tables(),
{
    let bodies = migration.bodies();
    let ghost all = bodies@.map_values(|body: &str| body@);
    let mut scan = TableScan { created: Vec::new(), referenced: Vec::new() };
    let mut i: usize = 0;
    assert(scan@ =~= names_of_bodies(all.take(0)));
    while i < bodies.len()
        invariant
            i <= bodies@.len(),
            all == bodies@.map_values(|body: &str| body@),
            scan@ == names_of_bodies(all.take(i as int)),
        decreases bodies@.len() - i,
    {
        let mut body_scan = scan_tables(bodies[i]);
        let ghost before = scan@;
        let ghost found = body_scan@;
        scan.created.append(&mut body_scan.created);
        scan.referenced.append(&mut body_scan.referenced);
        assert(scan@ =~= before.followed_by(found));
        i += 1;
        assert(all.take(i as int).drop_last() =~= all.take(i - 1));
    }
    assert(all.take(all.len() as int) =~= all);
    scan
}

fn contains_text(names: &Vec<String>, name: &str) -> (found: bool)
    ensures
        found == texts(names@).contains(name@),
{
    let mut i: usize = 0;
    while i < names.len()
        invariant
            i <= names@.len(),
            forall|k: int| 0 <= k < i ==> #[trigger] texts(names@)[k] != name@,
        decreases names@.len() - i,
    {
        assert(texts(names@)[i as int] == names@[i as int]@);
        if same_text(names[i].as_str(), name) {
            return true;
        }
        i += 1;
    }
    false
}

/// Whether one of the scans has created the table.
fn created_by(scans: &Vec<TableScan>, table: &str) -> (found: bool)
    ensures
        found == exists|i: int|
            0 <= i < scans@.len() && (#[trigger] scans@[i])@.created.contains(table@),
{
    let mut i: usize = 0;
    while i < scans.len()
        invariant
            i <= scans@.len(),
            forall|k: int| 0 <= k < i ==> !(#[trigger] scans@[k])@.created.contains(table@),
        decreases scans@.len() - i,
    {
        if contains_text(&scans[i].created, table) {
            return true;
        }
        i += 1;
    }
    false
}

/// Reject a bundle that references any table it does not itself create. Tables
/// share the per-database `{prefix}`, so ownership is read from what the bundle
/// creates, not from the prefix: a bundle may reference only the tables created
/// by its own migrations.
pub fn check_bundle_independence(bundle: &MigrationBundle) -> (r: Result<(), MigrationError>)
    ensures
        independence_verdict(bundle@, outcome(r)),
{
    let migrations = bundle.migrations();
    let ghost all = bundle@.migrations;
    let mut scans: Vec<TableScan> = Vec::new();
    let mut n: usize = 0;
    while n < migrations.len()
        invariant
            n <= migrations@.len() == all.len(),
            all == bundle@.migrations,
            all == migration_views(migrations@),
            scans@.len() == n,
            forall|i: int| 0 <= i < n ==> (#[trigger] scans@[i])@ == all[i].tables(),
        decreases migrations@.len() - n,
    {
        scans.push(scan_migration(&migrations[n]));
        n += 1;
    }
    let mut i: usize = 0;
    while i < scans.len()
        invariant
            i <= scans@.len() == migrations@.len() == all.len(),
            all == bundle@.migrations,
            all == migration_views(migrations@),
            forall|h: int| 0 <= h < scans@.len() ==> (#[trigger] scans@[h])@ == all[h].tables(),
            forall|h: int|
                0 <= h < i ==> bundle@.owns_first(
                    h,
                    (#[trigger] all[h]).tables().referenced.len() as int,
                ),
        decreases scans@.len() - i,
    {
        let referenced = &scans[i].referenced;
        let mut k: usize = 0;
        while k < referenced.len()
            invariant
                i < scans@.len() == migrations@.len() == all.len(),
                k <= referenced@.len(),
                all == bundle@.migrations,
                all == migration_views(migrations@),
                forall|h: int| 0 <= h < scans@.len() ==> (#[trigger] scans@[h])@ == all[h].tables(),
                texts(referenced@) == all[i as int].tables().referenced,
                forall|h: int|
                    0 <= h < i ==> bundle@.owns_first(
                        h,
                        (#[trigger] all[h]).tables().referenced.len() as int,
                    ),
                bundle@.owns_first(i as int, k as int),
            decreases referenced@.len() - k,
        {
            let table = &referenced[k];
            assert(all[i as int].tables().referenced[k as int] == table@);
            let owned = created_by(&scans, table.as_str());
            assert(owned == bundle@.creates(table@)) by {
                if bundle@.creates(table@) {
                    let h = choose|h: int|
                        0 <= h < all.len() && (#[trigger] all[h]).tables().created.contains(table@);
                    assert(scans@[h]@.created.contains(table@));
                }
                if owned {
                    let h = choose|h: int|
                        0 <= h < scans@.len() && (#[trigger] scans@[h])@.created.contains(table@);
                    assert(all[h].tables().created.contains(table@));
                }
            }
            if !owned {
                assert(bundle@.first_foreign(i as int, k as int));
                return Err(
                    MigrationError::CrossBundleReference {
                        bundle_id: bundle.bundle_id().to_owned(),
                        version: migrations[i].version(),
                        table: table.clone(),
                    },
                );
            }
            k += 1;
        }
        i += 1;
    }
    Ok(())
}

/// The views of a sequence of bundles.
pub open spec fn bundle_views(bundles: Seq<MigrationBundle>) -> Seq<BundleView> {
    bundles.map_values(|bundle: MigrationBundle| bundle@)
}

/// An earlier bundle has the id of bundle `i`.
pub open spec fn id_repeated(bundles: Seq<BundleView>, i: int) -> bool {
    exists|j: int| 0 <= j < i && #[trigger] bundles[j].bundle_id == bundles[i].bundle_id
}

/// Bundle `i` of the set passes every rule of the lint.
pub open spec fn lint_passes(bundles: Seq<BundleView>, i: int) -> bool {
    &&& bundles[i].fault() is None
    &&& !id_repeated(bundles, i)
    &&& bundles[i].independent()
}

/// `fault` is what the lint says of bundle `i`, the rules taken in order: the
/// bundle's own faults, a repeated id, a foreign table.
pub open spec fn lint_fault(bundles: Seq<BundleView>, i: int, fault: MigrationErrorView) -> bool {
    if bundles[i].fault() is Some {
        bundles[i].fault() == Some(fault)
    } else if id_repeated(bundles, i) {
        fault == MigrationErrorView::DuplicateBundle(bundles[i].bundle_id)
    } else {
        independence_verdict(bundles[i], Err(fault))
    }
}

/// Bundle `i` is the first that does not pass, for the reason `fault`.
pub open spec fn first_lint_fault(
    bundles: Seq<BundleView>,
    i: int,
    fault: MigrationErrorView,
) -> bool {
    &&& 0 <= i < bundles.len()
    &&& lint_fault(bundles, i, fault)
    &&& forall|j: int| 0 <= j < i ==> #[trigger] lint_passes(bundles, j)
}

/// Whether some bundle before position `i` has the id of the one there.
fn repeats_id(bundles: &[MigrationBundle], i: usize) -> (repeated: bool)
    requires
        i < bundles@.len(),
    ensures
        repeated == id_repeated(bundle_views(bundles@), i as int),
{
    let ghost all = bundle_views(bundles@);
    let mut j: usize = 0;
    while j < i
        invariant
            j <= i < bundles@.len(),
            all == bundle_views(bundles@),
            forall|k: int| 0 <= k < j ==> #[trigger] all[k].bundle_id != all[i as int].bundle_id,
        decreases i - j,
    {
        assert(all[j as int] == bundles@[j as int]@);
        if same_text(bundles[j].bundle_id(), bundles[i].bundle_id()) {
            return true;
        }
        j += 1;
    }
    false
}

/// Refuse bundle `i` if an earlier bundle has its id.
pub fn check_id_is_new(bundles: &[MigrationBundle], i: usize) -> (r: Result<(), MigrationError>)
    requires
        i < bundles@.len(),
    ensures
        ({
            let all = bundle_views(bundles@);
            match r {
                Ok(()) => !id_repeated(all, i as int),
                Err(error) => id_repeated(all, i as int) && error@
                    == MigrationErrorView::DuplicateBundle(all[i as int].bundle_id),
            }
        }),
{
    assert(bundle_views(bundles@)[i as int] == bundles@[i as int]@);
    if repeats_id(bundles, i) {
        Err(MigrationError::DuplicateBundle(bundles[i].bundle_id().to_owned()))
    } else {
        Ok(())
    }
}

/// Refuse a set of bundles in which an id occurs twice, naming the first id that
/// was seen before.
pub fn check_ids_are_distinct(bundles: &[MigrationBundle]) -> (r: Result<(), MigrationError>)
    ensures
        ({
            let all = bundle_views(bundles@);
            match r {
                Ok(()) => forall|i: int| 0 <= i < all.len() ==> !#[trigger] id_repeated(all, i),
                Err(error) => exists|i: int|
                    0 <= i < all.len() && #[trigger] id_repeated(all, i) && (forall|j: int|
                        0 <= j < i ==> !#[trigger] id_repeated(all, j)) && error@
                        == MigrationErrorView::DuplicateBundle(all[i].bundle_id),
            }
        }),
{
    let mut i: usize = 0;
    while i < bundles.len()
        invariant
            i <= bundles@.len(),
            forall|j: int| 0 <= j < i ==> !#[trigger] id_repeated(bundle_views(bundles@), j),
        decreases bundles@.len() - i,
    {
        if let Err(error) = check_id_is_new(bundles, i) {
            return Err(error);
        }
        i += 1;
    }
    Ok(())
}

/// Build-time validation across a whole set of bundles.
///
/// It enforces the invariants that need the full set, not a single bundle:
/// unique, strictly-increasing versions within each bundle; distinct bundle ids
/// across the set; and bundle independence: a bundle's DDL may reference only
/// tables it itself creates, so no bundle silently couples to another.
pub fn lint(bundles: &[MigrationBundle]) -> (r: Result<(), MigrationError>)
    ensures
        match r {
            Ok(()) => forall|i: int|
                0 <= i < bundles@.len() ==> #[trigger] lint_passes(bundle_views(bundles@), i),
            Err(error) => exists|i: int| #[trigger]
                first_lint_fault(bundle_views(bundles@), i, error@),
        },
{
    let ghost all = bundle_views(bundles@);
    let mut i: usize = 0;
    while i < bundles.len()
        invariant
            i <= bundles@.len(),
            all == bundle_views(bundles@),
            forall|j: int| 0 <= j < i ==> #[trigger] lint_passes(all, j),
        decreases bundles@.len() - i,
    {
        let bundle = &bundles[i];
        assert(all[i as int] == bundle@);
        if let Err(error) = bundle.validate() {
            assert(first_lint_fault(all, i as int, error@));
            return Err(error);
        }
        if repeats_id(bundles, i) {
            let error = MigrationError::DuplicateBundle(bundle.bundle_id().to_owned());
            assert(first_lint_fault(all, i as int, error@));
            return Err(error);
        }
        if let Err(error) = check_bundle_independence(bundle) {
            assert(first_lint_fault(all, i as int, error@));
            return Err(error);
        }
        i += 1;
    }
    Ok(())
}

/// What a passed lint guarantees of the whole set: ids are distinct, versions
/// are strictly increasing within each bundle, and every table that a migration
/// refers to is created by a migration of the same bundle.
pub proof fn linted_bundles_are_independent(bundles: Seq<BundleView>)
    requires
        forall|i: int| 0 <= i < bundles.len() ==> #[trigger] lint_passes(bundles, i),
    ensures
        forall|i: int, j: int|
            0 <= i < j < bundles.len() ==> #[trigger] bundles[i].bundle_id
                != #[trigger] bundles[j].bundle_id,
        forall|i: int| 0 <= i < bundles.len() ==> (#[trigger] bundles[i]).ordered(),
        forall|b: int, m: int, k: int|
            0 <= b < bundles.len() && 0 <= m < bundles[b].migrations.len() && 0 <= k
                < bundles[b].migrations[m].tables().referenced.len() ==> bundles[b].creates(
                #[trigger] bundles[b].migrations[m].tables().referenced[k],
            ),
{
    assert forall|i: int, j: int| 0 <= i < j < bundles.len() implies #[trigger] bundles[i].bundle_id
        != #[trigger] bundles[j].bundle_id by {
        assert(lint_passes(bundles, j));
    }
    assert forall|i: int| 0 <= i < bundles.len() implies (#[trigger] bundles[i]).ordered() by {
        assert(lint_passes(bundles, i));
        accepted_bundle_is_ordered(bundles[i]);
    }
    assert forall|b: int, m: int, k: int|
        0 <= b < bundles.len() && 0 <= m < bundles[b].migrations.len() && 0 <= k
            < bundles[b].migrations[m].tables().referenced.len() implies bundles[b].creates(
        #[trigger] bundles[b].migrations[m].tables().referenced[k],
    ) by {
        assert(lint_passes(bundles, b));
        assert(bundles[b].owns_first(
            m,
            bundles[b].migrations[m].tables().referenced.len() as int,
        ));
    }
}

} // verus!
