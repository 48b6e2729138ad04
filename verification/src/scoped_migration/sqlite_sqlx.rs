//! The asynchronous SQLite runner: its settings and the runs that it starts.
use crate::identifier::is_sql_identifier;
use crate::scoped_migration::batch::{batch_starts, BatchStep};
use crate::scoped_migration::bundle::{bundle_views, MigrationBundle};
use crate::scoped_migration::error::{MigrationError, MigrationErrorView};
use crate::scoped_migration::ledger::{LedgerSchema, LedgerView};
use crate::scoped_migration::migration::sql_identifier;
use crate::scoped_migration::run::{
    Backend, BundleRun, RunView, RunnerSettings, SettingsView,
};
use vstd::prelude::*;

verus! {

/// SQLite migration runner with a per-prefix ledger table, over a pool.
#[derive(Debug, Clone)]
pub struct SqlxSqliteMigrationRunner {
    settings: RunnerSettings,
}

impl View for SqlxSqliteMigrationRunner {
    type V = SettingsView;

    closed spec fn view(&self) -> SettingsView {
        self.settings@
    }
}

impl SqlxSqliteMigrationRunner {
    /// A runner whose ledger tables, and the tables of its migrations, carry
    /// `prefix`.
    pub fn with_prefix(prefix: &str) -> (r: Result<Self, MigrationError>)
        ensures
            match r {
                Ok(runner) => is_sql_identifier(prefix@) && runner@ == (SettingsView {
                    backend: Backend::SqlxSqlite,
                    prefix: prefix@,
                    ledger: LedgerView::of_prefix(prefix@),
                    applied_by: "awaken-scoped-migration"@,
                }),
                Err(error) => !is_sql_identifier(prefix@) && error@
                    == MigrationErrorView::InvalidSqlIdentifier(prefix@),
            },
    {
        let prefix = match sql_identifier(prefix) {
            Ok(prefix) => prefix,
            Err(error) => return Err(error),
        };
        let ledger = match LedgerSchema::with_prefix(prefix.as_str()) {
            Ok(ledger) => ledger,
            Err(error) => return Err(error),
        };
        Ok(
            SqlxSqliteMigrationRunner {
                settings: RunnerSettings {
                    backend: Backend::SqlxSqlite,
                    prefix,
                    ledger,
                    applied_by: "awaken-scoped-migration".to_owned(),
                },
            },
        )
    }

    /// The same runner with another applier on record.
    pub fn with_applied_by(self, applied_by: &str) -> (runner: Self)
        ensures
            runner@ == (SettingsView { applied_by: applied_by@, ..self@ }),
    {
        let SqlxSqliteMigrationRunner { settings } = self;
        SqlxSqliteMigrationRunner {
            settings: RunnerSettings {
                backend: settings.backend,
                prefix: settings.prefix,
                ledger: settings.ledger,
                applied_by: applied_by.to_owned(),
            },
        }
    }

    pub fn ledger_table(&self) -> (name: &str)
        ensures
            name@ == self@.ledger.ledger_table,
    {
        self.settings.ledger.ledger_table()
    }

    pub fn meta_table(&self) -> (name: &str)
        ensures
            name@ == self@.ledger.meta_table,
    {
        self.settings.ledger.meta_table()
    }

    /// Start a run that applies what is pending of a bundle.
    pub fn run_bundle<'a>(&self, bundle: &'a MigrationBundle) -> (run: BundleRun<'a>)
        ensures
            run@ == (RunView {
                settings: self@,
                bundle: bundle@,
                todo: self@.run_program(bundle@.bundle_id),
                applied: Seq::empty(),
            }),
    {
        self.settings.run(bundle)
    }

    /// Start to run bundles in registration order. A duplicate bundle id is refused
    /// before anything is run.
    pub fn run_bundles<'a>(&self, bundles: &'a [MigrationBundle]) -> (step: BatchStep<'a>)
        ensures
            batch_starts(self@, bundle_views(bundles@), step@),
    {
        self.settings.run_bundles(bundles)
    }
}

} // verus!
