//! The ledger of applied migrations: its two tables, when they are created, and
//! the stamp that says which generation of the ledger they are.
use crate::identifier::is_sql_identifier;
use crate::scoped_migration::error::{MigrationError, MigrationErrorView};
use crate::scoped_migration::migration::{is_verdict, sql_identifier, Dialect};
use crate::text::{decimal, decimal_text, texts};
use vstd::prelude::*;
use vstd::string::*;

verus! {

/// Schema version of the ledger itself (its own bookkeeping tables), distinct
/// from the per-bundle migration versions it records.
///
/// The ledger cannot ledger its own creation, so the runner stamps a fresh
/// ledger with this value and refuses to operate on a ledger stamped with any
/// other.
pub const LEDGER_VERSION: i64 = 1;

/// The fault of a ledger stamped with `found`.
pub open spec fn stamp_fault(ledger_table: Seq<char>, found: i64) -> Option<MigrationErrorView> {
    if found == LEDGER_VERSION {
        None
    } else {
        Some(
            MigrationErrorView::LedgerVersionMismatch {
                ledger_table,
                expected: LEDGER_VERSION,
                found,
            },
        )
    }
}

/// Fail closed unless the ledger's stamped version equals [`LEDGER_VERSION`].
///
/// Pure and backend-agnostic so every backend shell shares one decision: each
/// reads the stamped value with its own driver, then defers the verdict here.
pub fn check_ledger_version(ledger_table: &str, found: i64) -> (r: Result<(), MigrationError>)
    ensures
        is_verdict(r, stamp_fault(ledger_table@, found)),
{
    if found == LEDGER_VERSION {
        return Ok(());
    }
    Err(
        MigrationError::LedgerVersionMismatch {
            ledger_table: ledger_table.to_owned(),
            expected: LEDGER_VERSION,
            found,
        },
    )
}

/// What a runner does about the ledger tables before it uses them.
#[derive(Debug, Clone, Copy, PartialEq, Eq, Structural)]
pub enum LedgerBootstrapAction {
    /// Neither table exists: create both and stamp the ledger.
    Create,
    /// Both tables exist: use them as they are.
    Reuse,
}

/// The two tables of a ledger, named by a prefix.
#[derive(Debug, Clone)]
pub struct LedgerSchema {
    ledger_table: String,
    meta_table: String,
}

/// The names of a ledger's tables.
pub struct LedgerView {
    pub ledger_table: Seq<char>,
    pub meta_table: Seq<char>,
}

impl View for LedgerSchema {
    type V = LedgerView;

    closed spec fn view(&self) -> LedgerView {
        LedgerView { ledger_table: self.ledger_table@, meta_table: self.meta_table@ }
    }
}

impl LedgerView {
    /// The ledger of a prefix.
    pub open spec fn of_prefix(prefix: Seq<char>) -> LedgerView {
        LedgerView {
            ledger_table: prefix + "_schema_migrations"@,
            meta_table: prefix + "_schema_migrations_meta"@,
        }
    }

    /// What to do about the tables, given which of them exist. One without the
    /// other is never repaired.
    pub open spec fn bootstrap(self, ledger_exists: bool, meta_exists: bool) -> Result<
        LedgerBootstrapAction,
        MigrationErrorView,
    > {
        if ledger_exists != meta_exists {
            Err(
                MigrationErrorView::IncompleteLedger {
                    ledger_table: self.ledger_table,
                    meta_table: self.meta_table,
                    ledger_exists,
                    meta_exists,
                },
            )
        } else if ledger_exists {
            Ok(LedgerBootstrapAction::Reuse)
        } else {
            Ok(LedgerBootstrapAction::Create)
        }
    }

    /// The fault of a ledger whose metadata table holds these stamps: it must
    /// hold exactly one, of this generation.
    pub open spec fn stamps_fault(self, stamps: Seq<i64>) -> Option<MigrationErrorView> {
        if stamps.len() != 1 {
            Some(
                MigrationErrorView::LedgerMetadataRowCount {
                    meta_table: self.meta_table,
                    found: stamps.len() as usize,
                },
            )
        } else {
            stamp_fault(self.ledger_table, stamps[0])
        }
    }

    /// Create the ledger table, create the metadata table, stamp the ledger.
    pub open spec fn creation(self, dialect: Dialect) -> Seq<Seq<char>> {
        seq![
            "CREATE TABLE "@ + self.ledger_table + ledger_columns(dialect),
            "CREATE TABLE "@ + self.meta_table + meta_columns(dialect),
            "INSERT INTO "@ + self.meta_table + " (ledger_version) VALUES ("@ + decimal(
                LEDGER_VERSION as int,
            ) + ")"@,
        ]
    }
}

pub open spec fn ledger_columns(dialect: Dialect) -> Seq<char> {
    match dialect {
        Dialect::Postgres => " (\n                bundle_id TEXT NOT NULL,\n                version BIGINT NOT NULL,\n                checksum TEXT NOT NULL,\n                description TEXT NOT NULL,\n                applied_at TIMESTAMPTZ NOT NULL DEFAULT now(),\n                applied_by TEXT NOT NULL,\n                PRIMARY KEY (bundle_id, version)\n            )"@,
        Dialect::Sqlite => " (\n                bundle_id TEXT NOT NULL,\n                version INTEGER NOT NULL,\n                checksum TEXT NOT NULL,\n                description TEXT NOT NULL,\n                applied_at TEXT NOT NULL DEFAULT (datetime('now')),\n                applied_by TEXT NOT NULL,\n                PRIMARY KEY (bundle_id, version)\n            )"@,
    }
}

pub open spec fn meta_columns(dialect: Dialect) -> Seq<char> {
    match dialect {
        Dialect::Postgres => " (ledger_version BIGINT NOT NULL)"@,
        Dialect::Sqlite => " (ledger_version INTEGER NOT NULL)"@,
    }
}

/// The column list of the ledger table.
pub(crate) fn ledger_columns_text(dialect: Dialect) -> (s: &'static str)
    ensures
        s@ == ledger_columns(dialect),
{
    match dialect {
        Dialect::Postgres => " (\n                bundle_id TEXT NOT NULL,\n                version BIGINT NOT NULL,\n                checksum TEXT NOT NULL,\n                description TEXT NOT NULL,\n                applied_at TIMESTAMPTZ NOT NULL DEFAULT now(),\n                applied_by TEXT NOT NULL,\n                PRIMARY KEY (bundle_id, version)\n            )",
        Dialect::Sqlite => " (\n                bundle_id TEXT NOT NULL,\n                version INTEGER NOT NULL,\n                checksum TEXT NOT NULL,\n                description TEXT NOT NULL,\n                applied_at TEXT NOT NULL DEFAULT (datetime('now')),\n                applied_by TEXT NOT NULL,\n                PRIMARY KEY (bundle_id, version)\n            )",
    }
}

/// The column list of the metadata table.
pub(crate) fn meta_columns_text(dialect: Dialect) -> (s: &'static str)
    ensures
        s@ == meta_columns(dialect),
{
    match dialect {
        Dialect::Postgres => " (ledger_version BIGINT NOT NULL)",
        Dialect::Sqlite => " (ledger_version INTEGER NOT NULL)",
    }
}

impl LedgerSchema {
    /// The ledger whose tables carry `prefix`.
    pub fn with_prefix(prefix: &str) -> (r: Result<Self, MigrationError>)
        ensures
            match r {
                Ok(ledger) => is_sql_identifier(prefix@) && ledger@ == LedgerView::of_prefix(prefix@),
                Err(error) => !is_sql_identifier(prefix@) && error@
                    == MigrationErrorView::InvalidSqlIdentifier(prefix@),
            },
    {
        match sql_identifier(prefix) {
            Ok(name) => {
                let ledger_table = name.clone().concat("_schema_migrations");
                let meta_table = name.concat("_schema_migrations_meta");
                Ok(LedgerSchema { ledger_table, meta_table })
            },
            Err(error) => Err(error),
        }
    }

    /// The same ledger once more.
    pub(crate) fn duplicate(&self) -> (ledger: LedgerSchema)
        ensures
            ledger@ == self@,
    {
        LedgerSchema { ledger_table: self.ledger_table.clone(), meta_table: self.meta_table.clone() }
    }

    pub fn ledger_table(&self) -> (name: &str)
        ensures
            name@ == self@.ledger_table,
    {
        self.ledger_table.as_str()
    }

    pub fn meta_table(&self) -> (name: &str)
        ensures
            name@ == self@.meta_table,
    {
        self.meta_table.as_str()
    }

    /// Decide what to do about the ledger tables, given which of them exist.
    /// Exactly one of them is an incomplete ledger: it is refused, not repaired.
    pub fn bootstrap_action(&self, ledger_exists: bool, meta_exists: bool) -> (r: Result<
        LedgerBootstrapAction,
        MigrationError,
    >)
        ensures
            match r {
                Ok(action) => self@.bootstrap(ledger_exists, meta_exists) == Ok::<
                    LedgerBootstrapAction,
                    MigrationErrorView,
                >(action),
                Err(error) => self@.bootstrap(ledger_exists, meta_exists) == Err::<
                    LedgerBootstrapAction,
                    MigrationErrorView,
                >(error@),
            },
    {
        if ledger_exists != meta_exists {
            Err(
                MigrationError::IncompleteLedger {
                    ledger_table: self.ledger_table.clone(),
                    meta_table: self.meta_table.clone(),
                    ledger_exists,
                    meta_exists,
                },
            )
        } else if ledger_exists {
            Ok(LedgerBootstrapAction::Reuse)
        } else {
            Ok(LedgerBootstrapAction::Create)
        }
    }

    /// The three unconditional statements that make a fresh ledger: the ledger
    /// table, the metadata table, and the stamp.
    pub fn create_statements(&self, dialect: Dialect) -> (statements: Vec<String>)
        ensures
            texts(statements@) == self@.creation(dialect),
    {
        let create_ledger = "CREATE TABLE ".to_owned().concat(self.ledger_table.as_str()).concat(
            ledger_columns_text(dialect),
        );
        let create_meta = "CREATE TABLE ".to_owned().concat(self.meta_table.as_str()).concat(
            meta_columns_text(dialect),
        );
        let version = decimal_text(LEDGER_VERSION);
        let stamp = "INSERT INTO ".to_owned().concat(self.meta_table.as_str()).concat(
            " (ledger_version) VALUES (",
        ).concat(version.as_str()).concat(")");
        let statements: Vec<String> = vec![create_ledger, create_meta, stamp];
        assert(texts(statements@) =~= self@.creation(dialect));
        statements
    }

    /// Fail closed unless the metadata table holds exactly one stamp, of this
    /// generation.
    pub fn check_stamps(&self, stamps: &Vec<i64>) -> (r: Result<(), MigrationError>)
        ensures
            is_verdict(r, self@.stamps_fault(stamps@)),
    {
        if stamps.len() != 1 {
            return Err(
                MigrationError::LedgerMetadataRowCount {
                    meta_table: self.meta_table.clone(),
                    found: stamps.len(),
                },
            );
        }
        check_ledger_version(self.ledger_table.as_str(), stamps[0])
    }
}

} // verus!
