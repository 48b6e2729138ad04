//! Migrations of plain SQL, and bundles of them.
use crate::checksum::{checksum_text, sha256_hex};
use crate::identifier::{
    bundle_id_valid, is_bundle_id, is_sql_identifier, sql_identifier_valid,
};
use crate::sql_migration::error::{MigrationError, MigrationErrorView};
use crate::text::{blank, is_blank, same_text};
use vstd::prelude::*;
use vstd::utf8::encode_utf8;

verus! {

/// One ordered SQL migration inside a named bundle.
#[derive(Debug, Clone, PartialEq, Eq)]
pub struct Migration {
    version: i64,
    description: String,
    sql: String,
}

/// What a migration is: its version, its description and its SQL.
pub struct MigrationView {
    pub version: i64,
    pub description: Seq<char>,
    pub sql: Seq<char>,
}

impl View for Migration {
    type V = MigrationView;

    closed spec fn view(&self) -> MigrationView {
        MigrationView {
            version: self.version,
            description: self.description@,
            sql: self.sql@,
        }
    }
}

pub open spec fn refused(version: i64, reason: Seq<char>) -> Option<MigrationErrorView> {
    Some(MigrationErrorView::InvalidMigration { version, reason })
}

impl MigrationView {
    /// The SHA-256 digest of the SQL text, in hexadecimal.
    pub open spec fn checksum(self) -> Seq<char> {
        checksum_text(encode_utf8(self.sql))
    }

    /// Why the migration is refused, if it is.
    pub open spec fn fault(self) -> Option<MigrationErrorView> {
        if self.version <= 0 {
            refused(self.version, "version must be positive"@)
        } else if is_blank(self.description) {
            refused(self.version, "description must not be blank"@)
        } else if is_blank(self.sql) {
            refused(self.version, "sql must not be blank"@)
        } else {
            None
        }
    }
}

/// What a check of a value says: nothing, or the fault.
pub open spec fn is_verdict(r: Result<(), MigrationError>, fault: Option<MigrationErrorView>) -> bool {
    match r {
        Ok(()) => fault is None,
        Err(error) => fault == Some(error@),
    }
}

impl Migration {
    pub fn new(version: i64, description: &str, sql: &str) -> (r: Result<Self, MigrationError>)
        ensures
            ({
                let wanted = MigrationView { version, description: description@, sql: sql@ };
                match r {
                    Ok(migration) => wanted.fault() is None && migration@ == wanted,
                    Err(error) => wanted.fault() == Some(error@),
                }
            }),
    {
        let migration = Migration {
            version,
            description: description.to_owned(),
            sql: sql.to_owned(),
        };
        match migration.validate() {
            Ok(()) => Ok(migration),
            Err(error) => Err(error),
        }
    }

    pub fn version(&self) -> (version: i64)
        ensures
            version == self@.version,
    {
        self.version
    }

    pub fn description(&self) -> (description: &str)
        ensures
            description@ == self@.description,
    {
        self.description.as_str()
    }

    pub fn sql(&self) -> (sql: &str)
        ensures
            sql@ == self@.sql,
    {
        self.sql.as_str()
    }

    pub fn checksum(&self) -> (checksum: String)
        ensures
            checksum@ == self@.checksum(),
            checksum@.len() == 64,
    {
        sha256_hex(self.sql.as_str().as_bytes())
    }

    /// Dialect-neutral validation. Statement-count and other driver-specific
    /// limits are enforced by the backend shell, not here.
    pub(crate) fn validate(&self) -> (r: Result<(), MigrationError>)
        ensures
            is_verdict(r, self@.fault()),
    {
        let reason = if self.version <= 0 {
            "version must be positive"
        } else if blank(self.description.as_str()) {
            "description must not be blank"
        } else if blank(self.sql.as_str()) {
            "sql must not be blank"
        } else {
            return Ok(());
        };
        Err(MigrationError::InvalidMigration { version: self.version, reason })
    }
}

/// A service-owned, independently versioned migration stream.
///
/// Bundles carry no cross-bundle dependencies: services are deployed split or
/// aggregated, so no bundle may hard-couple to another. When several bundles
/// share one database, execution order is the registration order passed to the
/// backend runner.
#[derive(Debug, Clone, PartialEq, Eq)]
pub struct MigrationBundle {
    bundle_id: String,
    migrations: Vec<Migration>,
}

/// What a bundle is: its id and its migrations in order.
pub struct BundleView {
    pub bundle_id: Seq<char>,
    pub migrations: Seq<MigrationView>,
}

/// The views of a sequence of migrations.
pub open spec fn migration_views(migrations: Seq<Migration>) -> Seq<MigrationView> {
    migrations.map_values(|migration: Migration| migration@)
}

impl View for MigrationBundle {
    type V = BundleView;

    closed spec fn view(&self) -> BundleView {
        BundleView {
            bundle_id: self.bundle_id@,
            migrations: migration_views(self.migrations@),
        }
    }
}

/// The version that stands before position `i`, or zero.
pub open spec fn version_before(migrations: Seq<MigrationView>, i: int) -> i64 {
    if i > 0 {
        migrations[i - 1].version
    } else {
        0
    }
}

/// The first fault among the first `n` migrations of a bundle.
pub open spec fn order_fault(
    bundle_id: Seq<char>,
    migrations: Seq<MigrationView>,
    n: nat,
) -> Option<MigrationErrorView>
    decreases n,
{
    if n == 0 {
        None
    } else {
        let i = n - 1;
        let version = migrations[i].version;
        match order_fault(bundle_id, migrations, i as nat) {
            Some(fault) => Some(fault),
            None => if migrations[i].fault() is Some {
                migrations[i].fault()
            } else if exists|j: int| 0 <= j < i && #[trigger] migrations[j].version == version {
                Some(MigrationErrorView::DuplicateMigrationVersion { bundle_id, version })
            } else if version <= version_before(migrations, i) {
                Some(
                    MigrationErrorView::InvalidMigrationOrder {
                        bundle_id,
                        previous: version_before(migrations, i),
                        current: version,
                    },
                )
            } else {
                None
            },
        }
    }
}

impl BundleView {
    /// Why the bundle is refused, if it is.
    pub open spec fn fault(self) -> Option<MigrationErrorView> {
        if !is_bundle_id(self.bundle_id) {
            Some(MigrationErrorView::InvalidBundleId(self.bundle_id))
        } else {
            order_fault(self.bundle_id, self.migrations, self.migrations.len())
        }
    }

    /// The versions are positive and strictly increasing.
    pub open spec fn ordered(self) -> bool {
        &&& forall|i: int| 0 <= i < self.migrations.len() ==> #[trigger] self.migrations[i].version > 0
        &&& forall|i: int, j: int|
            0 <= i < j < self.migrations.len() ==> #[trigger] self.migrations[i].version
                < #[trigger] self.migrations[j].version
    }

    /// Some migration of the bundle has this version.
    pub open spec fn declares(self, version: i64) -> bool {
        exists|i: int| 0 <= i < self.migrations.len() && #[trigger] self.migrations[i].version == version
    }
}

/// A bundle without a fault has positive, strictly increasing versions, and no
/// migration of it has a fault.
pub proof fn accepted_bundle_is_ordered(bundle: BundleView)
    requires
        bundle.fault() is None,
    ensures
        bundle.ordered(),
        forall|i: int|
            0 <= i < bundle.migrations.len() ==> (#[trigger] bundle.migrations[i]).fault() is None,
{
    lemma_ordered_prefix(bundle, bundle.migrations.len());
}

proof fn lemma_ordered_prefix(bundle: BundleView, n: nat)
    requires
        n <= bundle.migrations.len(),
        order_fault(bundle.bundle_id, bundle.migrations, n) is None,
    ensures
        forall|i: int| 0 <= i < n ==> #[trigger] bundle.migrations[i].version > 0,
        forall|i: int, j: int|
            0 <= i < j < n ==> #[trigger] bundle.migrations[i].version
                < #[trigger] bundle.migrations[j].version,
        forall|i: int| 0 <= i < n ==> (#[trigger] bundle.migrations[i]).fault() is None,
    decreases n,
{
    if n > 0 {
        lemma_ordered_prefix(bundle, (n - 1) as nat);
    }
}

impl MigrationBundle {
    pub fn new(bundle_id: &str, migrations: Vec<Migration>) -> (r: Result<Self, MigrationError>)
        ensures
            ({
                let wanted = BundleView {
                    bundle_id: bundle_id@,
                    migrations: migration_views(migrations@),
                };
                match r {
                    Ok(bundle) => wanted.fault() is None && bundle@ == wanted,
                    Err(error) => wanted.fault() == Some(error@),
                }
            }),
    {
        let bundle = MigrationBundle { bundle_id: bundle_id.to_owned(), migrations };
        match bundle.validate() {
            Ok(()) => Ok(bundle),
            Err(error) => Err(error),
        }
    }

    pub fn bundle_id(&self) -> (id: &str)
        ensures
            id@ == self@.bundle_id,
    {
        self.bundle_id.as_str()
    }

    pub fn migrations(&self) -> (migrations: &[Migration])
        ensures
            migration_views(migrations@) == self@.migrations,
    {
        self.migrations.as_slice()
    }

    /// Whether some migration before position `i` has the version of the one
    /// there.
    fn repeats(&self, i: usize) -> (repeated: bool)
        requires
            i < self@.migrations.len(),
        ensures
            repeated == exists|j: int|
                0 <= j < i && #[trigger] self@.migrations[j].version
                    == self@.migrations[i as int].version,
    {
        let mut j: usize = 0;
        while j < i
            invariant
                j <= i < self@.migrations.len(),
                self@.migrations == migration_views(self.migrations@),
                forall|k: int|
                    0 <= k < j ==> #[trigger] self@.migrations[k].version
                        != self@.migrations[i as int].version,
            decreases i - j,
        {
            assert(self@.migrations[j as int] == self.migrations@[j as int]@);
            if self.migrations[j].version() == self.migrations[i].version() {
                return true;
            }
            j += 1;
        }
        false
    }

    /// Whether the id is valid and the versions are positive and strictly
    /// increasing, each migration being valid by itself.
    pub(crate) fn validate(&self) -> (r: Result<(), MigrationError>)
        ensures
            is_verdict(r, self@.fault()),
    {
        if !bundle_id_valid(self.bundle_id.as_str()) {
            return Err(MigrationError::InvalidBundleId(self.bundle_id.clone()));
        }
        let ghost all = self@.migrations;
        let mut previous: i64 = 0;
        let mut i: usize = 0;
        while i < self.migrations.len()
            invariant
                i <= self.migrations@.len(),
                is_bundle_id(self.bundle_id@),
                all == self@.migrations,
                all == migration_views(self.migrations@),
                self@.bundle_id == self.bundle_id@,
                previous == version_before(all, i as int),
                order_fault(self@.bundle_id, all, i as nat) is None,
            decreases self.migrations@.len() - i,
        {
            let migration = &self.migrations[i];
            assert(all[i as int] == migration@);
            proof {
                lemma_fault_persists(self@, (i + 1) as nat);
            }
            if let Err(error) = migration.validate() {
                return Err(error);
            }
            let version: i64 = migration.version();
            if self.repeats(i) {
                return Err(
                    MigrationError::DuplicateMigrationVersion {
                        bundle_id: self.bundle_id.clone(),
                        version,
                    },
                );
            }
            if version <= previous {
                return Err(
                    MigrationError::InvalidMigrationOrder {
                        bundle_id: self.bundle_id.clone(),
                        previous,
                        current: version,
                    },
                );
            }
            previous = version;
            i += 1;
        }
        Ok(())
    }
}

/// The first fault of a prefix is the fault of the bundle.
proof fn lemma_fault_persists(bundle: BundleView, n: nat)
    requires
        n <= bundle.migrations.len(),
    ensures
        order_fault(bundle.bundle_id, bundle.migrations, n) is Some ==> order_fault(
            bundle.bundle_id,
            bundle.migrations,
            bundle.migrations.len(),
        ) == order_fault(bundle.bundle_id, bundle.migrations, n),
    decreases bundle.migrations.len() - n,
{
    if n < bundle.migrations.len() {
        lemma_fault_persists(bundle, n + 1);
    }
}

/// The views of a sequence of bundles.
pub open spec fn bundle_views(bundles: Seq<MigrationBundle>) -> Seq<BundleView> {
    bundles.map_values(|bundle: MigrationBundle| bundle@)
}

/// An earlier bundle has the id of bundle `i`.
pub open spec fn id_repeated(bundles: Seq<BundleView>, i: int) -> bool {
    exists|j: int| 0 <= j < i && #[trigger] bundles[j].bundle_id == bundles[i].bundle_id
}

/// Whether some bundle before position `i` has the id of the one there.
fn repeats_id(bundles: &[MigrationBundle], i: usize) -> (repeated: bool)
    requires
        i < bundles@.len(),
    ensures
        repeated == id_repeated(bundle_views(bundles@), i as int),
{
    let ghost all = bundle_views(bundles@);
    let mut j: usize = 0;
    while j < i
        invariant
            j <= i < bundles@.len(),
            all == bundle_views(bundles@),
            forall|k: int| 0 <= k < j ==> #[trigger] all[k].bundle_id != all[i as int].bundle_id,
        decreases i - j,
    {
        assert(all[j as int] == bundles@[j as int]@);
        if same_text(bundles[j].bundle_id(), bundles[i].bundle_id()) {
            return true;
        }
        j += 1;
    }
    false
}

/// Refuse bundle `i` if an earlier bundle has its id.
pub fn check_id_is_new(bundles: &[MigrationBundle], i: usize) -> (r: Result<(), MigrationError>)
    requires
        i < bundles@.len(),
    ensures
        ({
            let all = bundle_views(bundles@);
            match r {
                Ok(()) => !id_repeated(all, i as int),
                Err(error) => id_repeated(all, i as int) && error@
                    == MigrationErrorView::DuplicateBundle(all[i as int].bundle_id),
            }
        }),
{
    assert(bundle_views(bundles@)[i as int] == bundles@[i as int]@);
    if repeats_id(bundles, i) {
        Err(MigrationError::DuplicateBundle(bundles[i].bundle_id().to_owned()))
    } else {
        Ok(())
    }
}

/// Refuse a set of bundles in which an id occurs twice, naming the first id that
/// was seen before.
pub fn check_ids_are_distinct(bundles: &[MigrationBundle]) -> (r: Result<(), MigrationError>)
    ensures
        ({
            let all = bundle_views(bundles@);
            match r {
                Ok(()) => forall|i: int| 0 <= i < all.len() ==> !#[trigger] id_repeated(all, i),
                Err(error) => exists|i: int|
                    0 <= i < all.len() && #[trigger] id_repeated(all, i) && (forall|j: int|
                        0 <= j < i ==> !#[trigger] id_repeated(all, j)) && error@
                        == MigrationErrorView::DuplicateBundle(all[i].bundle_id),
            }
        }),
{
    let mut i: usize = 0;
    while i < bundles.len()
        invariant
            i <= bundles@.len(),
            forall|j: int| 0 <= j < i ==> !#[trigger] id_repeated(bundle_views(bundles@), j),
        decreases bundles@.len() - i,
    {
        if let Err(error) = check_id_is_new(bundles, i) {
            return Err(error);
        }
        i += 1;
    }
    Ok(())
}

/// Validate a SQL identifier used as a table-name prefix (ASCII, leading
/// letter, `[A-Za-z0-9_]`).
pub fn sql_identifier(value: &str) -> (r: Result<String, MigrationError>)
    ensures
        match r {
            Ok(name) => is_sql_identifier(value@) && name@ == value@,
            Err(error) => !is_sql_identifier(value@) && error@
                == MigrationErrorView::InvalidSqlIdentifier(value@),
        },
{
    if sql_identifier_valid(value) {
        return Ok(value.to_owned());
    }
    Err(MigrationError::InvalidSqlIdentifier(value.to_owned()))
}

} // verus!
