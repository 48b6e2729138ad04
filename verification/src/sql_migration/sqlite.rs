//! The SQLite runner: its settings and the runs that it starts.
use crate::identifier::is_sql_identifier;
use crate::scoped_migration::migration::Dialect;
use crate::sql_migration::batch::{batch_starts, BatchStep};
use crate::sql_migration::error::{MigrationError, MigrationErrorView};
use crate::sql_migration::migration::{bundle_views, MigrationBundle};
use crate::sql_migration::run::{BundleRun, RunView, RunnerSettings, SettingsView};
use vstd::prelude::*;

verus! {

/// SQLite migration runner with a per-prefix ledger table.
///
/// There is no single-statement limit: a migration body may hold several
/// statements.
#[derive(Debug, Clone)]
pub struct SqliteMigrationRunner {
    settings: RunnerSettings,
}

impl View for SqliteMigrationRunner {
    type V = SettingsView;

    closed spec fn view(&self) -> SettingsView {
        self.settings@
    }
}

impl SqliteMigrationRunner {
    /// A runner whose ledger table carries `prefix`.
    pub fn with_prefix(prefix: &str) -> (r: Result<Self, MigrationError>)
        ensures
            match r {
                Ok(runner) => is_sql_identifier(prefix@) && runner@ == (SettingsView {
                    dialect: Dialect::Sqlite,
                    ledger_table: prefix@ + "_schema_migrations"@,
                    applied_by: "awaken-scoped-migration"@,
                }),
                Err(error) => !is_sql_identifier(prefix@) && error@
                    == MigrationErrorView::InvalidSqlIdentifier(prefix@),
            },
    {
        match RunnerSettings::with_prefix(Dialect::Sqlite, prefix, "awaken-scoped-migration") {
            Ok(settings) => Ok(SqliteMigrationRunner { settings }),
            Err(error) => Err(error),
        }
    }

    /// The same runner with another applier on record.
    pub fn with_applied_by(self, applied_by: &str) -> (runner: Self)
        ensures
            runner@ == (SettingsView { applied_by: applied_by@, ..self@ }),
    {
        let SqliteMigrationRunner { settings } = self;
        SqliteMigrationRunner {
            settings: RunnerSettings {
                dialect: settings.dialect,
                ledger_table: settings.ledger_table,
                applied_by: applied_by.to_owned(),
            },
        }
    }

    pub fn ledger_table(&self) -> (name: &str)
        ensures
            name@ == self@.ledger_table,
    {
        self.settings.ledger_table.as_str()
    }

    /// Start a run that applies what is pending of a bundle.
    pub fn run_bundle<'a>(&self, bundle: &'a MigrationBundle) -> (run: BundleRun<'a>)
        ensures
            run@ == (RunView {
                settings: self@,
                bundle: bundle@,
                todo: self@.run_program(bundle@.bundle_id),
                applied: Seq::empty(),
            }),
    {
        self.settings.run(bundle)
    }

    /// Start to run bundles in registration order. A duplicate bundle id is refused
    /// before anything is run.
    pub fn run_bundles<'a>(&self, bundles: &'a [MigrationBundle]) -> (step: BatchStep<'a>)
        ensures
            batch_starts(self@, bundle_views(bundles@), step@),
    {
        self.settings.run_bundles(bundles)
    }
}

} // verus!
