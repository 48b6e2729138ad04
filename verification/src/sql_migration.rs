//! A migration ledger for plain SQL: ordered bundles, checksums, and the plan
//! of what still has to run.
pub mod batch;
pub mod conversation;
pub mod error;
pub mod migration;
pub mod plan;
pub mod postgres;
pub mod run;
pub mod splitting;
pub mod sqlite;
pub mod statements;
pub mod turns;

pub use crate::scoped_migration::plan::AppliedMigration;
pub use error::MigrationError;
pub use migration::{sql_identifier, Migration, MigrationBundle};
pub use plan::plan;
