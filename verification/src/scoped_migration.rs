//! Scoped schema migrations: bundles of ordered, checksummed migrations, a
//! ledger of what was applied, and the decisions a runner takes between its
//! database calls.
pub mod batch;
pub mod bundle;
pub mod clauses;
pub mod conversation;
pub mod error;
pub mod identity;
pub mod ledger;
pub mod lexing;
pub mod migration;
pub mod plan;
pub mod postgres;
pub mod rendering;
pub mod run;
pub mod sqlite;
pub mod sqlite_sqlx;
pub mod statements;
pub mod turns;
pub mod words;

pub use bundle::{lint, MigrationBundle};
pub use error::{version_label, MigrationError};
pub use ledger::{check_ledger_version, LedgerBootstrapAction, LedgerSchema, LEDGER_VERSION};
pub use migration::{render, sql_identifier, Dialect, Migration};
pub use plan::{plan, AppliedMigration};
pub use postgres::PostgresMigrationRunner;
pub use sqlite::SqliteMigrationRunner;
pub use sqlite_sqlx::SqlxSqliteMigrationRunner;
