//! The PostgreSQL runner: its settings and the runs that it starts.
use crate::identifier::is_sql_identifier;
use crate::scoped_migration::batch::{batch_starts, first_step, BatchStep};
use crate::scoped_migration::bundle::{bundle_views, MigrationBundle};
use crate::scoped_migration::error::{MigrationError, MigrationErrorView};
use crate::scoped_migration::ledger::{LedgerSchema, LedgerView};
use crate::scoped_migration::migration::sql_identifier;
use crate::scoped_migration::run::{
    Backend, BundleRun, Goal, RunView, RunnerSettings, SettingsView,
};
use vstd::prelude::*;

verus! {

/// PostgreSQL migration runner with a per-prefix ledger table.
#[derive(Debug)]
pub struct PostgresMigrationRunner {
    settings: RunnerSettings,
}

impl View for PostgresMigrationRunner {
    type V = SettingsView;

    closed spec fn view(&self) -> SettingsView {
        self.settings@
    }
}

impl Clone for PostgresMigrationRunner {
    fn clone(&self) -> (runner: Self)
        ensures
            runner@ == self@,
    {
        proof {
            use_type_invariant(self);
        }
        PostgresMigrationRunner { settings: self.settings.duplicate() }
    }
}

impl PostgresMigrationRunner {
    #[verifier::type_invariant]
    spec fn is_for_postgres(self) -> bool {
        self.settings@.backend == Backend::Postgres
    }

    /// A runner whose ledger tables, and the tables of its migrations, carry
    /// `prefix`.
    pub fn with_prefix(prefix: &str) -> (r: Result<Self, MigrationError>)
        ensures
            match r {
                Ok(runner) => is_sql_identifier(prefix@) && runner@ == (SettingsView {
                    backend: Backend::Postgres,
                    prefix: prefix@,
                    ledger: LedgerView::of_prefix(prefix@),
                    applied_by: "awaken-scoped-migration"@,
                }),
                Err(error) => !is_sql_identifier(prefix@) && error@
                    == MigrationErrorView::InvalidSqlIdentifier(prefix@),
            },
    {
        let prefix = match sql_identifier(prefix) {
            Ok(prefix) => prefix,
            Err(error) => return Err(error),
        };
        let ledger = match LedgerSchema::with_prefix(prefix.as_str()) {
            Ok(ledger) => ledger,
            Err(error) => return Err(error),
        };
        Ok(
            PostgresMigrationRunner {
                settings: RunnerSettings {
                    backend: Backend::Postgres,
                    prefix,
                    ledger,
                    applied_by: "awaken-scoped-migration".to_owned(),
                },
            },
        )
    }

    /// The same runner with another applier on record.
    pub fn with_applied_by(self, applied_by: &str) -> (runner: Self)
        ensures
            runner@ == (SettingsView { applied_by: applied_by@, ..self@ }),
    {
        proof {
            use_type_invariant(&self);
        }
        let PostgresMigrationRunner { settings } = self;
        PostgresMigrationRunner {
            settings: RunnerSettings {
                backend: settings.backend,
                prefix: settings.prefix,
                ledger: settings.ledger,
                applied_by: applied_by.to_owned(),
            },
        }
    }

    pub fn ledger_table(&self) -> (name: &str)
        ensures
            name@ == self@.ledger.ledger_table,
    {
        self.settings.ledger.ledger_table()
    }

    pub fn meta_table(&self) -> (name: &str)
        ensures
            name@ == self@.ledger.meta_table,
    {
        self.settings.ledger.meta_table()
    }

    /// Start a run that applies what is pending of a bundle.
    pub fn run_bundle<'a>(&self, bundle: &'a MigrationBundle) -> (run: BundleRun<'a>)
        ensures
            run@ == (RunView {
                settings: self@,
                bundle: bundle@,
                todo: self@.run_program(bundle@.bundle_id),
                applied: Seq::empty(),
            }),
    {
        self.settings.run(bundle)
    }

    /// Start to run bundles in registration order. A duplicate bundle id is refused
    /// before anything is run.
    pub fn run_bundles<'a>(&self, bundles: &'a [MigrationBundle]) -> (step: BatchStep<'a>)
        ensures
            batch_starts(self@, bundle_views(bundles@), step@),
    {
        self.settings.run_bundles(bundles)
    }

    /// Start a run that verifies that an operator already applied every
    /// migration in `bundle`.
    ///
    /// This path is deliberately read-only: it neither creates the ledger nor
    /// records or executes a migration. Missing schema, drift, unknown versions
    /// and a pending migration all fail closed.
    pub fn verify_bundle<'a>(&self, bundle: &'a MigrationBundle) -> (run: BundleRun<'a>)
        ensures
            run@ == (RunView {
                settings: self@,
                bundle: bundle@,
                todo: self@.verify_program(bundle@.bundle_id),
                applied: Seq::empty(),
            }),
    {
        proof {
            use_type_invariant(self);
        }
        self.settings.verify(bundle)
    }

    /// Start to verify several independent bundles without applying any DDL.
    pub fn verify_bundles<'a>(&self, bundles: &'a [MigrationBundle]) -> (step: BatchStep<'a>)
        ensures
            step@ == first_step(self@, bundle_views(bundles@), Goal::Verify),
    {
        proof {
            use_type_invariant(self);
        }
        self.settings.verify_bundles(bundles)
    }
}

} // verus!
