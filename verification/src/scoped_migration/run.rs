//! A bundle run as a conversation with a database: which command comes next,
//! given the answer to the last one.
//!
//! A driver sends the command that a run awaits, hands the answer to
//! [`BundleRun::step`], and goes on with the run that it gets back until the run
//! is over. A run that ends in an error leaves its transaction to be rolled
//! back.
use crate::scoped_migration::bundle::{BundleView, MigrationBundle};
use crate::scoped_migration::error::{MigrationError, MigrationErrorView};
use crate::scoped_migration::ledger::{
    ledger_columns, ledger_columns_text, meta_columns, meta_columns_text, LedgerBootstrapAction,
    LedgerSchema, LedgerView, LEDGER_VERSION,
};
use crate::scoped_migration::migration::{render, rendered, Dialect, Migration, MigrationView};
use crate::scoped_migration::plan::{
    agrees, is_plan, ledger_view, plan, plan_resumes_where_a_run_stopped, plan_view,
    plans_fail_closed, recorded, unrecorded, AppliedMigration,
};
use crate::text::texts;
use std::collections::BTreeMap;
use vstd::prelude::*;
use vstd::string::*;

verus! {

/// The database shells that runs are written for.
#[derive(Debug, Clone, Copy, PartialEq, Eq, Structural)]
pub enum Backend {
    /// PostgreSQL through an asynchronous pool.
    Postgres,
    /// SQLite through a borrowed synchronous connection.
    Sqlite,
    /// SQLite through an asynchronous pool.
    SqlxSqlite,
}

impl Backend {
    /// The dialect this backend applies and checksums migrations under.
    pub open spec fn dialect_of(self) -> Dialect {
        match self {
            Backend::Postgres => Dialect::Postgres,
            _ => Dialect::Sqlite,
        }
    }

    /// The dialect this backend applies and checksums migrations under.
    pub fn dialect(self) -> (dialect: Dialect)
        ensures
            dialect == self.dialect_of(),
    {
        match self {
            Backend::Postgres => Dialect::Postgres,
            Backend::Sqlite => Dialect::Sqlite,
            Backend::SqlxSqlite => Dialect::Sqlite,
        }
    }
}

/// What a read of the ledger is for.
#[derive(Debug, Clone, Copy, PartialEq, Eq, Structural)]
pub enum Goal {
    /// Apply what is pending.
    Apply,
    /// Check that nothing is pending.
    Verify,
}

/// What a command asks of the database.
#[derive(Debug)]
pub enum Action {
    /// Open a transaction.
    Begin,
    /// Open a transaction that takes the write lock at once.
    BeginImmediate,
    /// Take the advisory lock of a table name and a key, for the transaction.
    Lock { table: String, key: String },
    /// Tell which of the two tables exist.
    Probe { ledger_table: String, meta_table: String },
    /// Execute a statement on the ledger's own tables.
    Execute { sql: String },
    /// Execute a statement on the ledger's own tables with one bound number.
    Seed { sql: String, version: i64 },
    /// Read the stamps of the ledger.
    ReadStamps { sql: String },
    /// Read the recorded versions and checksums of a bundle.
    ReadLedger { sql: String, bundle_id: String, goal: Goal },
    /// Execute a migration body, which may hold several statements.
    Apply { sql: String },
    /// Record an applied migration in the ledger.
    Record { sql: String, row: AppliedMigration, applied_by: String },
    Commit,
    Rollback,
}

/// A command, with the names under which its failure is reported: one for the
/// database call and one for reading its answer.
#[derive(Debug)]
pub struct Command {
    pub operation: &'static str,
    pub decoding: &'static str,
    pub action: Action,
}

/// A row of the ledger.
pub struct AppliedView {
    pub bundle_id: Seq<char>,
    pub version: i64,
    pub checksum: Seq<char>,
    pub description: Seq<char>,
}

impl View for AppliedMigration {
    type V = AppliedView;

    open spec fn view(&self) -> AppliedView {
        AppliedView {
            bundle_id: self.bundle_id@,
            version: self.version,
            checksum: self.checksum@,
            description: self.description@,
        }
    }
}

/// The views of a sequence of applied migrations.
pub open spec fn applied_views(rows: Seq<AppliedMigration>) -> Seq<AppliedView> {
    rows.map_values(|row: AppliedMigration| row@)
}

/// An [`Action`] with its texts as character sequences.
pub enum ActionView {
    Begin,
    BeginImmediate,
    Lock { table: Seq<char>, key: Seq<char> },
    Probe { ledger_table: Seq<char>, meta_table: Seq<char> },
    Execute { sql: Seq<char> },
    Seed { sql: Seq<char>, version: i64 },
    ReadStamps { sql: Seq<char> },
    ReadLedger { sql: Seq<char>, bundle_id: Seq<char>, goal: Goal },
    Apply { sql: Seq<char> },
    Record { sql: Seq<char>, row: AppliedView, applied_by: Seq<char> },
    Commit,
    Rollback,
}

impl View for Action {
    type V = ActionView;

    open spec fn view(&self) -> ActionView {
        match *self {
            Action::Begin => ActionView::Begin,
            Action::BeginImmediate => ActionView::BeginImmediate,
            Action::Lock { table, key } => ActionView::Lock { table: table@, key: key@ },
            Action::Probe { ledger_table, meta_table } => ActionView::Probe {
                ledger_table: ledger_table@,
                meta_table: meta_table@,
            },
            Action::Execute { sql } => ActionView::Execute { sql: sql@ },
            Action::Seed { sql, version } => ActionView::Seed { sql: sql@, version },
            Action::ReadStamps { sql } => ActionView::ReadStamps { sql: sql@ },
            Action::ReadLedger { sql, bundle_id, goal } => ActionView::ReadLedger {
                sql: sql@,
                bundle_id: bundle_id@,
                goal,
            },
            Action::Apply { sql } => ActionView::Apply { sql: sql@ },
            Action::Record { sql, row, applied_by } => ActionView::Record {
                sql: sql@,
                row: row@,
                applied_by: applied_by@,
            },
            Action::Commit => ActionView::Commit,
            Action::Rollback => ActionView::Rollback,
        }
    }
}

/// A [`Command`] with its texts as character sequences.
pub struct CommandView {
    pub operation: Seq<char>,
    pub decoding: Seq<char>,
    pub action: ActionView,
}

impl View for Command {
    type V = CommandView;

    open spec fn view(&self) -> CommandView {
        CommandView {
            operation: self.operation@,
            decoding: self.decoding@,
            action: self.action@,
        }
    }
}

/// The views of a sequence of commands.
pub open spec fn command_views(commands: Seq<Command>) -> Seq<CommandView> {
    commands.map_values(|command: Command| command@)
}

/// A command whose answer holds nothing to read.
pub open spec fn command(operation: Seq<char>, action: ActionView) -> CommandView {
    CommandView { operation, decoding: operation, action }
}

impl Command {
    pub(crate) fn plain(operation: &'static str, action: Action) -> (c: Command)
        ensures
            c@ == command(operation@, action@),
    {
        Command { operation, decoding: operation, action }
    }
}

/// What a runner is set up with: its backend, the table prefix, the ledger that
/// the prefix names, and who is recorded as the applier.
#[derive(Debug, Clone)]
pub struct RunnerSettings {
    pub backend: Backend,
    pub prefix: String,
    pub ledger: LedgerSchema,
    pub applied_by: String,
}

/// [`RunnerSettings`] with its texts as character sequences.
pub struct SettingsView {
    pub backend: Backend,
    pub prefix: Seq<char>,
    pub ledger: LedgerView,
    pub applied_by: Seq<char>,
}

impl View for RunnerSettings {
    type V = SettingsView;

    open spec fn view(&self) -> SettingsView {
        SettingsView {
            backend: self.backend,
            prefix: self.prefix@,
            ledger: self.ledger@,
            applied_by: self.applied_by@,
        }
    }
}

impl SettingsView {
    /// The names under which creating, applying and recording fail.
    pub open spec fn create_operation(self) -> Seq<char> {
        match self.backend {
            Backend::Postgres => "postgres_migration_bootstrap_create"@,
            Backend::Sqlite => "sqlite_migration_bootstrap_create"@,
            Backend::SqlxSqlite => "sqlite_sqlx_migration_bootstrap_create"@,
        }
    }

    pub open spec fn apply_operation(self) -> Seq<char> {
        match self.backend {
            Backend::Postgres => "postgres_migration_apply"@,
            Backend::Sqlite => "sqlite_migration_apply"@,
            Backend::SqlxSqlite => "sqlite_sqlx_migration_apply"@,
        }
    }

    pub open spec fn record_operation(self) -> Seq<char> {
        match self.backend {
            Backend::Postgres => "postgres_migration_record"@,
            Backend::Sqlite => "sqlite_migration_record"@,
            Backend::SqlxSqlite => "sqlite_sqlx_migration_record"@,
        }
    }

    /// The statement that records a row: bundle id, version, checksum,
    /// description and applier, bound in this order.
    pub open spec fn record_sql(self) -> Seq<char> {
        "INSERT INTO "@ + self.ledger.ledger_table + match self.backend {
            Backend::Postgres => " (bundle_id, version, checksum, description, applied_by)\n                 VALUES ($1, $2, $3, $4, $5)"@,
            Backend::Sqlite => " (bundle_id, version, checksum, description, applied_by)\n                 VALUES (?1, ?2, ?3, ?4, ?5)"@,
            Backend::SqlxSqlite => " (bundle_id, version, checksum, description, applied_by)\n                 VALUES (?, ?, ?, ?, ?)"@,
        }
    }

    /// The query for the recorded versions of one bundle.
    pub open spec fn read_sql(self) -> Seq<char> {
        "SELECT version, checksum FROM "@ + self.ledger.ledger_table + match self.backend {
            Backend::Postgres => " WHERE bundle_id = $1 ORDER BY version"@,
            Backend::Sqlite => " WHERE bundle_id = ?1 ORDER BY version"@,
            Backend::SqlxSqlite => " WHERE bundle_id = ? ORDER BY version"@,
        }
    }

    /// The query for the ledger's stamps.
    pub open spec fn stamps_sql(self) -> Seq<char> {
        "SELECT ledger_version FROM "@ + self.ledger.meta_table + match self.backend {
            Backend::SqlxSqlite => " LIMIT 1"@,
            _ => ""@,
        }
    }

    pub open spec fn lock(self, key: Seq<char>) -> ActionView {
        ActionView::Lock { table: self.ledger.ledger_table, key }
    }

    pub open spec fn probe(self) -> ActionView {
        ActionView::Probe {
            ledger_table: self.ledger.ledger_table,
            meta_table: self.ledger.meta_table,
        }
    }

    pub open spec fn read_stamps(self) -> ActionView {
        ActionView::ReadStamps { sql: self.stamps_sql() }
    }

    pub open spec fn read_ledger(self, bundle_id: Seq<char>, goal: Goal) -> ActionView {
        ActionView::ReadLedger { sql: self.read_sql(), bundle_id, goal }
    }

    /// The commands of a run that applies a bundle, as they stand before the
    /// database has answered any of them.
    pub open spec fn run_program(self, bundle_id: Seq<char>) -> Seq<CommandView> {
        match self.backend {
            Backend::Postgres => seq![
                command("postgres_migration_bootstrap_begin"@, ActionView::Begin),
                command("postgres_migration_bootstrap_lock"@, self.lock("ledger-bootstrap-v1"@)),
                CommandView {
                    operation: "postgres_migration_bootstrap_probe"@,
                    decoding: "postgres_migration_bootstrap_decode"@,
                    action: self.probe(),
                },
                CommandView {
                    operation: "postgres_migration_meta_read"@,
                    decoding: "postgres_migration_meta_decode"@,
                    action: self.read_stamps(),
                },
                command("postgres_migration_bootstrap_commit"@, ActionView::Commit),
                command("postgres_migration_meta_begin"@, ActionView::Begin),
                CommandView {
                    operation: "postgres_migration_meta_read"@,
                    decoding: "postgres_migration_meta_decode"@,
                    action: self.read_stamps(),
                },
                command("postgres_migration_meta_rollback"@, ActionView::Rollback),
                command("postgres_migration_begin"@, ActionView::Begin),
                command("postgres_migration_lock"@, self.lock(bundle_id)),
                CommandView {
                    operation: "postgres_migration_read_ledger"@,
                    decoding: "postgres_migration_decode_ledger"@,
                    action: self.read_ledger(bundle_id, Goal::Apply),
                },
                command("postgres_migration_commit"@, ActionView::Commit),
            ],
            Backend::Sqlite => seq![
                command("sqlite_migration_begin"@, ActionView::BeginImmediate),
                command("sqlite_migration_bootstrap_probe"@, self.probe()),
                CommandView {
                    operation: "sqlite_migration_meta_read"@,
                    decoding: "sqlite_migration_meta_decode"@,
                    action: self.read_stamps(),
                },
                CommandView {
                    operation: "sqlite_migration_read_ledger"@,
                    decoding: "sqlite_migration_decode_ledger"@,
                    action: self.read_ledger(bundle_id, Goal::Apply),
                },
                command("sqlite_migration_commit"@, ActionView::Commit),
            ],
            Backend::SqlxSqlite => seq![
                command(
                    "sqlite_sqlx_migration_ledger_schema"@,
                    ActionView::Execute {
                        sql: "CREATE TABLE IF NOT EXISTS "@ + self.ledger.ledger_table
                            + ledger_columns(Dialect::Sqlite),
                    },
                ),
                command(
                    "sqlite_sqlx_migration_meta_schema"@,
                    ActionView::Execute {
                        sql: "CREATE TABLE IF NOT EXISTS "@ + self.ledger.meta_table + meta_columns(
                            Dialect::Sqlite,
                        ),
                    },
                ),
                command(
                    "sqlite_sqlx_migration_meta_seed"@,
                    ActionView::Seed {
                        sql: "INSERT INTO "@ + self.ledger.meta_table
                            + " (ledger_version)\n             SELECT ? WHERE NOT EXISTS (SELECT 1 FROM "@
                            + self.ledger.meta_table + ")"@,
                        version: LEDGER_VERSION,
                    },
                ),
                CommandView {
                    operation: "sqlite_sqlx_migration_meta_read"@,
                    decoding: "sqlite_sqlx_migration_meta_decode"@,
                    action: self.read_stamps(),
                },
                command("sqlite_sqlx_migration_begin"@, ActionView::BeginImmediate),
                CommandView {
                    operation: "sqlite_sqlx_migration_read_ledger"@,
                    decoding: "sqlite_sqlx_migration_decode_ledger"@,
                    action: self.read_ledger(bundle_id, Goal::Apply),
                },
                command("sqlite_sqlx_migration_commit"@, ActionView::Commit),
            ],
        }
    }

    /// The commands that check, without writing, that a bundle was applied to a
    /// PostgreSQL database.
    pub open spec fn verify_program(self, bundle_id: Seq<char>) -> Seq<CommandView> {
        seq![
            command("postgres_migration_meta_begin"@, ActionView::Begin),
            CommandView {
                operation: "postgres_migration_meta_read"@,
                decoding: "postgres_migration_meta_decode"@,
                action: self.read_stamps(),
            },
            command("postgres_migration_meta_rollback"@, ActionView::Rollback),
            command("postgres_migration_verify_begin"@, ActionView::Begin),
            CommandView {
                operation: "postgres_migration_read_ledger"@,
                decoding: "postgres_migration_decode_ledger"@,
                action: self.read_ledger(bundle_id, Goal::Verify),
            },
            command("postgres_migration_verify_rollback"@, ActionView::Rollback),
        ]
    }

    /// The row that records a migration.
    pub open spec fn row(self, bundle_id: Seq<char>, migration: MigrationView) -> AppliedView {
        AppliedView {
            bundle_id,
            version: migration.version,
            checksum: migration.checksum_for(self.backend.dialect_of()),
            description: migration.ledger_description(),
        }
    }

    /// The rows of the pending migrations.
    pub open spec fn rows(self, bundle_id: Seq<char>, pending: Seq<MigrationView>) -> Seq<
        AppliedView,
    > {
        pending.map_values(|migration: MigrationView| self.row(bundle_id, migration))
    }

    /// Apply one migration: execute its body as rendered for the dialect and
    /// prefix, and record it.
    pub open spec fn apply_one(self, bundle_id: Seq<char>, migration: MigrationView) -> Seq<
        CommandView,
    > {
        let dialect = self.backend.dialect_of();
        seq![
            command(
                self.apply_operation(),
                ActionView::Apply { sql: rendered(migration.sql_for(dialect), dialect, self.prefix) },
            ),
            command(
                self.record_operation(),
                ActionView::Record {
                    sql: self.record_sql(),
                    row: self.row(bundle_id, migration),
                    applied_by: self.applied_by,
                },
            ),
        ]
    }

    /// Apply the pending migrations in order.
    pub open spec fn apply_all(self, bundle_id: Seq<char>, pending: Seq<MigrationView>) -> Seq<
        CommandView,
    >
        decreases pending.len(),
    {
        if pending.len() == 0 {
            Seq::empty()
        } else {
            self.apply_all(bundle_id, pending.drop_last()) + self.apply_one(
                bundle_id,
                pending.last(),
            )
        }
    }

    /// Create and stamp a fresh ledger.
    pub open spec fn create_ledger(self) -> Seq<CommandView> {
        self.ledger.creation(self.backend.dialect_of()).map_values(
            |sql: Seq<char>| command(self.create_operation(), ActionView::Execute { sql }),
        )
    }
}

/// A run of a bundle: what it still has to send, the first command being the one
/// whose answer it awaits, and what it will report as applied.
#[derive(Debug)]
pub struct BundleRun<'a> {
    settings: RunnerSettings,
    bundle: &'a MigrationBundle,
    todo: Vec<Command>,
    applied: Vec<AppliedMigration>,
}

/// A [`BundleRun`] by its views.
pub struct RunView {
    pub settings: SettingsView,
    pub bundle: BundleView,
    pub todo: Seq<CommandView>,
    pub applied: Seq<AppliedView>,
}

impl<'a> View for BundleRun<'a> {
    type V = RunView;

    closed spec fn view(&self) -> RunView {
        RunView {
            settings: self.settings@,
            bundle: self.bundle@,
            todo: command_views(self.todo@),
            applied: applied_views(self.applied@),
        }
    }
}

/// A database's answer to a command.
#[derive(Debug)]
pub enum Reply {
    /// The command was carried out.
    Done,
    /// Which of the two ledger tables exist.
    Presence { ledger_exists: bool, meta_exists: bool },
    /// The stamps of the ledger.
    Stamps(Vec<i64>),
    /// The recorded versions of the bundle, with their checksums.
    Ledger(BTreeMap<i64, String>),
    /// The command failed, or (`decoding`) its answer could not be read.
    Failed { decoding: bool, message: String },
}

/// What a run does next: await the answer to another command, or end.
#[derive(Debug)]
pub enum Step<'a> {
    Next(BundleRun<'a>),
    Over(Result<Vec<AppliedMigration>, MigrationError>),
}

/// A [`Step`] by its views.
pub enum StepView {
    Next(RunView),
    Over(Result<Seq<AppliedView>, MigrationErrorView>),
}

impl<'a> View for Step<'a> {
    type V = StepView;

    open spec fn view(&self) -> StepView {
        match *self {
            Step::Next(run) => StepView::Next(run@),
            Step::Over(Ok(applied)) => StepView::Over(Ok(applied_views(applied@))),
            Step::Over(Err(error)) => StepView::Over(Err(error@)),
        }
    }
}

/// The reply is one that the action can have.
pub open spec fn answers(reply: Reply, action: ActionView) -> bool {
    match reply {
        Reply::Failed { decoding, message } => true,
        Reply::Presence { ledger_exists, meta_exists } => action is Probe,
        Reply::Stamps(stamps) => action is ReadStamps,
        Reply::Ledger(applied) => action is ReadLedger,
        Reply::Done => !(action is Probe) && !(action is ReadStamps) && !(action is ReadLedger),
    }
}

impl RunView {
    /// The run goes on with the commands `front` before what is left, or ends
    /// where nothing is left.
    pub open spec fn continued(self, front: Seq<CommandView>, applied: Seq<AppliedView>) -> StepView {
        let todo = front + self.todo.drop_first();
        if todo.len() == 0 {
            StepView::Over(Ok(applied))
        } else {
            StepView::Next(RunView { todo, applied, ..self })
        }
    }

    /// What follows the reading of the ledger, where bundle and ledger agree.
    pub open spec fn planned(self, goal: Goal, pending: Seq<MigrationView>) -> StepView {
        match goal {
            Goal::Apply => self.continued(
                self.settings.apply_all(self.bundle.bundle_id, pending),
                self.settings.rows(self.bundle.bundle_id, pending),
            ),
            Goal::Verify => if pending.len() > 0 {
                StepView::Over(
                    Err(
                        MigrationErrorView::PendingMigration {
                            bundle_id: self.bundle.bundle_id,
                            version: pending[0].version,
                        },
                    ),
                )
            } else {
                self.continued(Seq::empty(), self.applied)
            },
        }
    }

    /// `next` is what the run does on `reply`.
    pub open spec fn steps_to(self, reply: Reply, next: StepView) -> bool {
        let awaited = self.todo[0];
        match reply {
            Reply::Failed { decoding, message } => next == StepView::Over(
                Err(
                    MigrationErrorView::Backend {
                        operation: if decoding {
                            awaited.decoding
                        } else {
                            awaited.operation
                        },
                        message: message@,
                    },
                ),
            ),
            Reply::Done => next == self.continued(Seq::empty(), self.applied),
            Reply::Presence { ledger_exists, meta_exists } => next
                == match self.settings.ledger.bootstrap(ledger_exists, meta_exists) {
                Err(fault) => StepView::Over(Err(fault)),
                Ok(LedgerBootstrapAction::Reuse) => self.continued(Seq::empty(), self.applied),
                Ok(LedgerBootstrapAction::Create) => self.continued(
                    self.settings.create_ledger(),
                    self.applied,
                ),
            },
            Reply::Stamps(stamps) => next == match self.settings.ledger.stamps_fault(stamps@) {
                Some(fault) => StepView::Over(Err(fault)),
                None => self.continued(Seq::empty(), self.applied),
            },
            Reply::Ledger(applied) => {
                let dialect = self.settings.backend.dialect_of();
                let ledger = ledger_view(applied@);
                match next {
                    StepView::Over(Err(fault)) if !agrees(self.bundle, ledger, dialect) => is_plan(
                        self.bundle,
                        ledger,
                        dialect,
                        Err(fault),
                    ),
                    _ => agrees(self.bundle, ledger, dialect) && next == self.planned(
                        awaited.action->ReadLedger_goal,
                        unrecorded(self.bundle.migrations, ledger),
                    ),
                }
            },
        }
    }
}

impl RunnerSettings {
    fn apply_name(&self) -> (name: &'static str)
        ensures
            name@ == self@.apply_operation(),
    {
        match self.backend {
            Backend::Postgres => "postgres_migration_apply",
            Backend::Sqlite => "sqlite_migration_apply",
            Backend::SqlxSqlite => "sqlite_sqlx_migration_apply",
        }
    }

    fn record_name(&self) -> (name: &'static str)
        ensures
            name@ == self@.record_operation(),
    {
        match self.backend {
            Backend::Postgres => "postgres_migration_record",
            Backend::Sqlite => "sqlite_migration_record",
            Backend::SqlxSqlite => "sqlite_sqlx_migration_record",
        }
    }

    fn create_name(&self) -> (name: &'static str)
        ensures
            name@ == self@.create_operation(),
    {
        match self.backend {
            Backend::Postgres => "postgres_migration_bootstrap_create",
            Backend::Sqlite => "sqlite_migration_bootstrap_create",
            Backend::SqlxSqlite => "sqlite_sqlx_migration_bootstrap_create",
        }
    }

    fn record_text(&self) -> (sql: String)
        ensures
            sql@ == self@.record_sql(),
    {
        "INSERT INTO ".to_owned().concat(self.ledger.ledger_table()).concat(
            match self.backend {
                Backend::Postgres => " (bundle_id, version, checksum, description, applied_by)\n                 VALUES ($1, $2, $3, $4, $5)",
                Backend::Sqlite => " (bundle_id, version, checksum, description, applied_by)\n                 VALUES (?1, ?2, ?3, ?4, ?5)",
                Backend::SqlxSqlite => " (bundle_id, version, checksum, description, applied_by)\n                 VALUES (?, ?, ?, ?, ?)",
            },
        )
    }

    fn lock_action(&self, key: &str) -> (action: Action)
        ensures
            action@ == self@.lock(key@),
    {
        Action::Lock { table: self.ledger.ledger_table().to_owned(), key: key.to_owned() }
    }

    fn probe_action(&self) -> (action: Action)
        ensures
            action@ == self@.probe(),
    {
        Action::Probe {
            ledger_table: self.ledger.ledger_table().to_owned(),
            meta_table: self.ledger.meta_table().to_owned(),
        }
    }

    fn read_stamps_action(&self) -> (action: Action)
        ensures
            action@ == self@.read_stamps(),
    {
        Action::ReadStamps {
            sql: "SELECT ledger_version FROM ".to_owned().concat(self.ledger.meta_table()).concat(
                match self.backend {
                    Backend::SqlxSqlite => " LIMIT 1",
                    _ => "",
                },
            ),
        }
    }

    fn read_ledger_action(&self, bundle_id: &str, goal: Goal) -> (action: Action)
        ensures
            action@ == self@.read_ledger(bundle_id@, goal),
    {
        Action::ReadLedger {
            sql: "SELECT version, checksum FROM ".to_owned().concat(
                self.ledger.ledger_table(),
            ).concat(
                match self.backend {
                    Backend::Postgres => " WHERE bundle_id = $1 ORDER BY version",
                    Backend::Sqlite => " WHERE bundle_id = ?1 ORDER BY version",
                    Backend::SqlxSqlite => " WHERE bundle_id = ? ORDER BY version",
                },
            ),
            bundle_id: bundle_id.to_owned(),
            goal,
        }
    }

    /// The commands of a run that applies a bundle.
    fn run_commands(&self, bundle_id: &str) -> (commands: Vec<Command>)
        ensures
            commands@.len() > 0,
            command_views(commands@) == self@.run_program(bundle_id@),
    {
        let commands: Vec<Command> = match self.backend {
            Backend::Postgres => vec![
                Command::plain("postgres_migration_bootstrap_begin", Action::Begin),
                Command::plain(
                    "postgres_migration_bootstrap_lock",
                    self.lock_action("ledger-bootstrap-v1"),
                ),
                Command {
                    operation: "postgres_migration_bootstrap_probe",
                    decoding: "postgres_migration_bootstrap_decode",
                    action: self.probe_action(),
                },
                Command {
                    operation: "postgres_migration_meta_read",
                    decoding: "postgres_migration_meta_decode",
                    action: self.read_stamps_action(),
                },
                Command::plain("postgres_migration_bootstrap_commit", Action::Commit),
                Command::plain("postgres_migration_meta_begin", Action::Begin),
                Command {
                    operation: "postgres_migration_meta_read",
                    decoding: "postgres_migration_meta_decode",
                    action: self.read_stamps_action(),
                },
                Command::plain("postgres_migration_meta_rollback", Action::Rollback),
                Command::plain("postgres_migration_begin", Action::Begin),
                Command::plain("postgres_migration_lock", self.lock_action(bundle_id)),
                Command {
                    operation: "postgres_migration_read_ledger",
                    decoding: "postgres_migration_decode_ledger",
                    action: self.read_ledger_action(bundle_id, Goal::Apply),
                },
                Command::plain("postgres_migration_commit", Action::Commit),
            ],
            Backend::Sqlite => vec![
                Command::plain("sqlite_migration_begin", Action::BeginImmediate),
                Command::plain("sqlite_migration_bootstrap_probe", self.probe_action()),
                Command {
                    operation: "sqlite_migration_meta_read",
                    decoding: "sqlite_migration_meta_decode",
                    action: self.read_stamps_action(),
                },
                Command {
                    operation: "sqlite_migration_read_ledger",
                    decoding: "sqlite_migration_decode_ledger",
                    action: self.read_ledger_action(bundle_id, Goal::Apply),
                },
                Command::plain("sqlite_migration_commit", Action::Commit),
            ],
            Backend::SqlxSqlite => {
                let create_ledger = "CREATE TABLE IF NOT EXISTS ".to_owned().concat(
                    self.ledger.ledger_table(),
                ).concat(ledger_columns_text(Dialect::Sqlite));
                let create_meta = "CREATE TABLE IF NOT EXISTS ".to_owned().concat(
                    self.ledger.meta_table(),
                ).concat(meta_columns_text(Dialect::Sqlite));
                let seed = "INSERT INTO ".to_owned().concat(self.ledger.meta_table()).concat(
                    " (ledger_version)\n             SELECT ? WHERE NOT EXISTS (SELECT 1 FROM ",
                ).concat(self.ledger.meta_table()).concat(")");
                vec![
                    Command::plain(
                        "sqlite_sqlx_migration_ledger_schema",
                        Action::Execute { sql: create_ledger },
                    ),
                    Command::plain(
                        "sqlite_sqlx_migration_meta_schema",
                        Action::Execute { sql: create_meta },
                    ),
                    Command::plain(
                        "sqlite_sqlx_migration_meta_seed",
                        Action::Seed { sql: seed, version: LEDGER_VERSION },
                    ),
                    Command {
                        operation: "sqlite_sqlx_migration_meta_read",
                        decoding: "sqlite_sqlx_migration_meta_decode",
                        action: self.read_stamps_action(),
                    },
                    Command::plain("sqlite_sqlx_migration_begin", Action::BeginImmediate),
                    Command {
                        operation: "sqlite_sqlx_migration_read_ledger",
                        decoding: "sqlite_sqlx_migration_decode_ledger",
                        action: self.read_ledger_action(bundle_id, Goal::Apply),
                    },
                    Command::plain("sqlite_sqlx_migration_commit", Action::Commit),
                ]
            },
        };
        assert(command_views(commands@) =~= self@.run_program(bundle_id@));
        commands
    }

    /// The commands that check that a bundle was applied.
    fn verify_commands(&self, bundle_id: &str) -> (commands: Vec<Command>)
        ensures
            commands@.len() > 0,
            command_views(commands@) == self@.verify_program(bundle_id@),
    {
        let commands: Vec<Command> = vec![
            Command::plain("postgres_migration_meta_begin", Action::Begin),
            Command {
                operation: "postgres_migration_meta_read",
                decoding: "postgres_migration_meta_decode",
                action: self.read_stamps_action(),
            },
            Command::plain("postgres_migration_meta_rollback", Action::Rollback),
            Command::plain("postgres_migration_verify_begin", Action::Begin),
            Command {
                operation: "postgres_migration_read_ledger",
                decoding: "postgres_migration_decode_ledger",
                action: self.read_ledger_action(bundle_id, Goal::Verify),
            },
            Command::plain("postgres_migration_verify_rollback", Action::Rollback),
        ];
        assert(command_views(commands@) =~= self@.verify_program(bundle_id@));
        commands
    }

    /// The commands that create and stamp a fresh ledger.
    fn create_commands(&self) -> (commands: Vec<Command>)
        ensures
            command_views(commands@) == self@.create_ledger(),
    {
        let statements = self.ledger.create_statements(self.backend.dialect());
        let ghost all = self@.create_ledger();
        let mut commands: Vec<Command> = Vec::new();
        let mut i: usize = 0;
        assert(command_views(commands@) =~= all.take(0));
        while i < statements.len()
            invariant
                i <= statements@.len() == all.len(),
                all == self@.create_ledger(),
                texts(statements@) == self@.ledger.creation(self.backend.dialect_of()),
                command_views(commands@) == all.take(i as int),
            decreases statements@.len() - i,
        {
            let sql = statements[i].clone();
            let ghost before = commands@;
            assert(texts(statements@)[i as int] == sql@);
            commands.push(Command::plain(self.create_name(), Action::Execute { sql }));
            i += 1;
            assert(command_views(commands@) =~= command_views(before).push(all[i - 1]));
            assert(command_views(commands@) =~= all.take(i as int));
        }
        assert(command_views(commands@) =~= self@.create_ledger());
        commands
    }

    /// The commands that apply the pending migrations, and the rows that they
    /// record.
    fn apply_commands(&self, bundle_id: &str, pending: &Vec<&Migration>) -> (r: (
        Vec<Command>,
        Vec<AppliedMigration>,
    ))
        ensures
            ({
                let migrations = pending@.map_values(|migration: &Migration| migration@);
                &&& command_views(r.0@) == self@.apply_all(bundle_id@, migrations)
                &&& applied_views(r.1@) == self@.rows(bundle_id@, migrations)
            }),
    {
        let dialect = self.backend.dialect();
        let ghost all = pending@.map_values(|migration: &Migration| migration@);
        let mut commands: Vec<Command> = Vec::new();
        let mut rows: Vec<AppliedMigration> = Vec::new();
        let mut i: usize = 0;
        assert(command_views(commands@) =~= self@.apply_all(bundle_id@, all.take(0)));
        assert(applied_views(rows@) =~= self@.rows(bundle_id@, all.take(0)));
        while i < pending.len()
            invariant
                i <= pending@.len(),
                all == pending@.map_values(|migration: &Migration| migration@),
                dialect == self.backend.dialect_of(),
                command_views(commands@) == self@.apply_all(bundle_id@, all.take(i as int)),
                applied_views(rows@) == self@.rows(bundle_id@, all.take(i as int)),
            decreases pending@.len() - i,
        {
            let migration = pending[i];
            let ghost before = commands@;
            let ghost rows_before = rows@;
            let sql = render(migration.sql_for(dialect), dialect, self.prefix.as_str());
            let checksum = migration.checksum_for(dialect);
            let description = migration.ledger_description();
            let recorded_row = AppliedMigration {
                bundle_id: bundle_id.to_owned(),
                version: migration.version(),
                checksum: checksum.clone(),
                description: description.clone(),
            };
            let reported_row = AppliedMigration {
                bundle_id: bundle_id.to_owned(),
                version: migration.version(),
                checksum,
                description,
            };
            commands.push(Command::plain(self.apply_name(), Action::Apply { sql }));
            commands.push(
                Command::plain(
                    self.record_name(),
                    Action::Record {
                        sql: self.record_text(),
                        row: recorded_row,
                        applied_by: self.applied_by.clone(),
                    },
                ),
            );
            rows.push(reported_row);
            i += 1;
            proof {
                let taken = all.take(i as int);
                assert(taken.drop_last() =~= all.take(i - 1));
                assert(taken.last() == migration@);
                assert(command_views(commands@) =~= command_views(before) + self@.apply_one(
                    bundle_id@,
                    migration@,
                ));
                assert(applied_views(rows@) =~= applied_views(rows_before).push(
                    self@.row(bundle_id@, migration@),
                ));
                assert(self@.rows(bundle_id@, taken) =~= self@.rows(bundle_id@, all.take(i - 1)).push(
                    self@.row(bundle_id@, migration@),
                ));
            }
        }
        assert(all.take(all.len() as int) =~= all);
        (commands, rows)
    }

    /// Start a run that applies what is pending of a bundle.
    pub fn run<'a>(&self, bundle: &'a MigrationBundle) -> (run: BundleRun<'a>)
        ensures
            run@ == (RunView {
                settings: self@,
                bundle: bundle@,
                todo: self@.run_program(bundle@.bundle_id),
                applied: Seq::empty(),
            }),
    {
        let run = BundleRun {
            settings: self.duplicate(),
            bundle,
            todo: self.run_commands(bundle.bundle_id()),
            applied: Vec::new(),
        };
        assert(run@.applied =~= Seq::empty());
        run
    }

    /// Start a run that checks, without writing, that a bundle was applied. Only
    /// PostgreSQL databases are checked.
    pub fn verify<'a>(&self, bundle: &'a MigrationBundle) -> (run: BundleRun<'a>)
        requires
            self@.backend == Backend::Postgres,
        ensures
            run@ == (RunView {
                settings: self@,
                bundle: bundle@,
                todo: self@.verify_program(bundle@.bundle_id),
                applied: Seq::empty(),
            }),
    {
        let run = BundleRun {
            settings: self.duplicate(),
            bundle,
            todo: self.verify_commands(bundle.bundle_id()),
            applied: Vec::new(),
        };
        assert(run@.applied =~= Seq::empty());
        run
    }

    /// The same settings once more.
    pub(crate) fn duplicate(&self) -> (settings: RunnerSettings)
        ensures
            settings@ == self@,
    {
        RunnerSettings {
            backend: self.backend,
            prefix: self.prefix.clone(),
            ledger: self.ledger.duplicate(),
            applied_by: self.applied_by.clone(),
        }
    }
}

impl<'a> BundleRun<'a> {
    #[verifier::type_invariant]
    spec fn awaits_an_answer(self) -> bool {
        self.todo@.len() > 0
    }

    /// The command whose answer the run awaits.
    pub fn command(&self) -> (command: &Command)
        ensures
            self@.todo.len() > 0,
            command@ == self@.todo[0],
    {
        proof {
            use_type_invariant(self);
        }
        &self.todo[0]
    }

    /// Go on with `front` before what is left, or end where nothing is left.
    fn continue_with(self, front: Vec<Command>) -> (next: Step<'a>)
        ensures
            next@ == self@.continued(command_views(front@), self@.applied),
    {
        proof {
            use_type_invariant(&self);
        }
        let BundleRun { settings, bundle, todo, applied } = self;
        let mut rest = todo;
        let _answered = rest.remove(0);
        let mut coming = front;
        let ghost first = front@;
        coming.append(&mut rest);
        assert(command_views(coming@) =~= command_views(first) + self@.todo.drop_first());
        if coming.len() == 0 {
            Step::Over(Ok(applied))
        } else {
            Step::Next(BundleRun { settings, bundle, todo: coming, applied })
        }
    }

    /// What the run does on the answer to the command that it awaits.
    ///
    /// A failed command ends the run with a backend error. The presence of the
    /// ledger tables decides whether a ledger is created, reused or refused; the
    /// stamps decide whether it is of this generation; its rows decide what is
    /// applied, or whether the bundle was applied.
    pub fn step(self, reply: Reply) -> (next: Step<'a>)
        requires
            answers(reply, self@.todo[0].action),
        ensures
            self@.todo.len() > 0,
            self@.steps_to(reply, next@),
    {
        proof {
            use_type_invariant(&self);
        }
        assert(command_views(Seq::<Command>::empty()) =~= Seq::<CommandView>::empty());
        match reply {
            Reply::Failed { decoding, message } => {
                let operation = if decoding {
                    self.todo[0].decoding
                } else {
                    self.todo[0].operation
                };
                Step::Over(Err(MigrationError::Backend { operation, message }))
            },
            Reply::Done => self.continue_with(Vec::new()),
            Reply::Presence { ledger_exists, meta_exists } => {
                match self.settings.ledger.bootstrap_action(ledger_exists, meta_exists) {
                    Err(error) => Step::Over(Err(error)),
                    Ok(LedgerBootstrapAction::Reuse) => self.continue_with(Vec::new()),
                    Ok(LedgerBootstrapAction::Create) => {
                        let front = self.settings.create_commands();
                        self.continue_with(front)
                    },
                }
            },
            Reply::Stamps(stamps) => {
                match self.settings.ledger.check_stamps(&stamps) {
                    Err(error) => Step::Over(Err(error)),
                    Ok(()) => self.continue_with(Vec::new()),
                }
            },
            Reply::Ledger(applied) => {
                let goal = match &self.todo[0].action {
                    Action::ReadLedger { sql: _, bundle_id: _, goal } => *goal,
                    _ => Goal::Apply,
                };
                self.step_planned(goal, &applied)
            },
        }
    }

    /// What the run does once it knows the rows of the ledger.
    fn step_planned(self, goal: Goal, applied: &BTreeMap<i64, String>) -> (next: Step<'a>)
        ensures
            ({
                let dialect = self@.settings.backend.dialect_of();
                let ledger = ledger_view(applied@);
                match next@ {
                    StepView::Over(Err(fault)) if !agrees(self@.bundle, ledger, dialect) => is_plan(
                        self@.bundle,
                        ledger,
                        dialect,
                        Err(fault),
                    ),
                    _ => agrees(self@.bundle, ledger, dialect) && next@ == self@.planned(
                        goal,
                        unrecorded(self@.bundle.migrations, ledger),
                    ),
                }
            }),
    {
        assert(command_views(Seq::<Command>::empty()) =~= Seq::<CommandView>::empty());
        let bundle = self.bundle;
        let outcome = plan(bundle, applied, self.settings.backend.dialect());
        proof {
            plans_fail_closed(
                self@.bundle,
                ledger_view(applied@),
                self@.settings.backend.dialect_of(),
                plan_view(outcome),
            );
        }
        match outcome {
            Err(error) => Step::Over(Err(error)),
            Ok(pending) => match goal {
                Goal::Apply => {
                    let (commands, rows) = self.settings.apply_commands(
                        bundle.bundle_id(),
                        &pending,
                    );
                    proof {
                        use_type_invariant(&self);
                    }
                    let BundleRun { settings, bundle, todo, applied: _ } = self;
                    let run = BundleRun { settings, bundle, todo, applied: rows };
                    run.continue_with(commands)
                },
                Goal::Verify => {
                    if pending.len() > 0 {
                        Step::Over(
                            Err(
                                MigrationError::PendingMigration {
                                    bundle_id: bundle.bundle_id().to_owned(),
                                    version: pending[0].version(),
                                },
                            ),
                        )
                    } else {
                        self.continue_with(Vec::new())
                    }
                },
            },
        }
    }
}

/// The command takes the guard of a bundle: the write lock of the database, or
/// the advisory lock of the ledger table and the bundle id.
pub open spec fn takes_guard(action: ActionView, table: Seq<char>, bundle_id: Seq<char>) -> bool {
    action is BeginImmediate || action == (ActionView::Lock { table, key: bundle_id })
}

/// The command opens or ends a transaction.
pub open spec fn bounds_transaction(action: ActionView) -> bool {
    action is Begin || action is BeginImmediate || action is Commit || action is Rollback
}

/// The ledger is read at `read`, in the transaction that took the guard at
/// `guard`; nothing but the commit follows the read, and nothing is applied
/// before it.
pub open spec fn guarded(
    program: Seq<CommandView>,
    settings: SettingsView,
    bundle_id: Seq<char>,
    guard: int,
    read: int,
) -> bool {
    &&& 0 <= guard < read
    &&& program.len() == read + 2
    &&& takes_guard(program[guard].action, settings.ledger.ledger_table, bundle_id)
    &&& program[read].action == settings.read_ledger(bundle_id, Goal::Apply)
    &&& program[read + 1].action is Commit
    &&& forall|i: int| guard < i < read ==> !bounds_transaction(#[trigger] program[i].action)
    &&& forall|i: int|
        0 <= i < program.len() ==> !((#[trigger] program[i]).action is Apply)
            && !(program[i].action is Record)
}

/// On every backend the commands with which a run starts take the single-applier
/// guard before they read the ledger, in the transaction that they end with, and
/// apply nothing.
pub proof fn programs_read_under_the_guard(settings: SettingsView, bundle_id: Seq<char>)
    ensures
        exists|guard: int, read: int| #[trigger]
            guarded(settings.run_program(bundle_id), settings, bundle_id, guard, read),
{
    let program = settings.run_program(bundle_id);
    match settings.backend {
        Backend::Postgres => {
            assert(guarded(program, settings, bundle_id, 9, 10));
        },
        Backend::Sqlite => {
            assert(guarded(program, settings, bundle_id, 0, 3));
        },
        Backend::SqlxSqlite => {
            assert(guarded(program, settings, bundle_id, 4, 5));
        },
    }
}

/// The command may change the database, or lead to one that does.
pub open spec fn may_write(action: ActionView) -> bool {
    match action {
        ActionView::Execute { sql } => true,
        ActionView::Seed { sql, version } => true,
        ActionView::Apply { sql } => true,
        ActionView::Record { sql, row, applied_by } => true,
        ActionView::Probe { ledger_table, meta_table } => true,
        ActionView::ReadLedger { sql, bundle_id, goal } => goal == Goal::Apply,
        ActionView::Commit => true,
        _ => false,
    }
}

/// None of the commands may change the database.
pub open spec fn read_only(todo: Seq<CommandView>) -> bool {
    forall|i: int| 0 <= i < todo.len() ==> !may_write(#[trigger] todo[i].action)
}

/// The run that verifies a bundle starts without a command that may write, and
/// no answer makes it go on with one.
pub proof fn verifying_never_writes(
    settings: SettingsView,
    bundle_id: Seq<char>,
    run: RunView,
    reply: Reply,
    next: StepView,
)
    requires
        run.todo.len() > 0,
        answers(reply, run.todo[0].action),
        run.steps_to(reply, next),
    ensures
        read_only(settings.verify_program(bundle_id)),
        read_only(run.todo) && next is Next ==> read_only(next->Next_0.todo),
{
    if read_only(run.todo) && next is Next {
        let rest = run.todo.drop_first();
        assert(!may_write(run.todo[0].action));
        assert(next->Next_0.todo =~= rest);
        assert forall|i: int| 0 <= i < rest.len() implies !may_write(#[trigger] rest[i].action) by {
            assert(rest[i] == run.todo[i + 1]);
        }
    }
}

/// The ledger after the commands were carried out.
pub open spec fn ledger_after(
    ledger: Map<i64, Seq<char>>,
    commands: Seq<CommandView>,
) -> Map<i64, Seq<char>>
    decreases commands.len(),
{
    if commands.len() == 0 {
        ledger
    } else {
        let before = ledger_after(ledger, commands.drop_last());
        match commands.last().action {
            ActionView::Record { sql, row, applied_by } => before.insert(row.version, row.checksum),
            _ => before,
        }
    }
}

pub(crate) proof fn lemma_ledger_after_apply(
    settings: SettingsView,
    bundle_id: Seq<char>,
    ledger: Map<i64, Seq<char>>,
    pending: Seq<MigrationView>,
    n: nat,
)
    requires
        n <= pending.len(),
    ensures
        ledger_after(ledger, settings.apply_all(bundle_id, pending.take(n as int))) == recorded(
            ledger,
            pending,
            settings.backend.dialect_of(),
            n,
        ),
    decreases n,
{
    let taken = pending.take(n as int);
    if n > 0 {
        lemma_ledger_after_apply(settings, bundle_id, ledger, pending, (n - 1) as nat);
        assert(taken.drop_last() =~= pending.take(n - 1));
        let before = settings.apply_all(bundle_id, taken.drop_last());
        let one = settings.apply_one(bundle_id, taken.last());
        let all = settings.apply_all(bundle_id, taken);
        assert(all.drop_last() =~= before + seq![one[0]]);
        assert(all.drop_last().drop_last() =~= before);
        assert(all.last() == one[1]);
        assert(all.drop_last().last() == one[0]);
        assert(ledger_after(ledger, all.drop_last()) == ledger_after(ledger, before));
    } else {
        assert(taken.len() == 0);
    }
}

/// A complete run is idempotent: once its commands were carried out, the ledger
/// agrees with the bundle and a second run has nothing to apply.
pub proof fn second_run_applies_nothing(
    settings: SettingsView,
    bundle: BundleView,
    ledger: Map<i64, Seq<char>>,
)
    requires
        bundle.fault() is None,
        agrees(bundle, ledger, settings.backend.dialect_of()),
    ensures
        ({
            let pending = unrecorded(bundle.migrations, ledger);
            let after = ledger_after(ledger, settings.apply_all(bundle.bundle_id, pending));
            &&& agrees(bundle, after, settings.backend.dialect_of())
            &&& unrecorded(bundle.migrations, after) == Seq::<MigrationView>::empty()
        }),
{
    let dialect = settings.backend.dialect_of();
    let pending = unrecorded(bundle.migrations, ledger);
    assert(pending.take(pending.len() as int) =~= pending);
    lemma_ledger_after_apply(settings, bundle.bundle_id, ledger, pending, pending.len());
    plan_resumes_where_a_run_stopped(
        bundle,
        ledger,
        dialect,
        pending.len(),
    );
    assert(pending.skip(pending.len() as int) =~= Seq::empty());
}

/// How many more commands a command can lead to, itself included.
pub open spec fn weight(action: ActionView, migrations: nat) -> nat {
    match action {
        ActionView::Probe { ledger_table, meta_table } => 4,
        ActionView::ReadLedger { sql, bundle_id, goal } => 1 + 2 * migrations,
        _ => 1,
    }
}

/// How many more commands a list of commands can lead to.
pub open spec fn total_weight(todo: Seq<CommandView>, migrations: nat) -> nat
    decreases todo.len(),
{
    if todo.len() == 0 {
        0
    } else {
        weight(todo[0].action, migrations) + total_weight(todo.drop_first(), migrations)
    }
}

proof fn lemma_weight_concat(a: Seq<CommandView>, b: Seq<CommandView>, migrations: nat)
    ensures
        total_weight(a + b, migrations) == total_weight(a, migrations) + total_weight(
            b,
            migrations,
        ),
    decreases a.len(),
{
    if a.len() == 0 {
        assert(a + b =~= b);
    } else {
        assert((a + b).drop_first() =~= a.drop_first() + b);
        lemma_weight_concat(a.drop_first(), b, migrations);
    }
}

proof fn lemma_weight_of_apply(
    settings: SettingsView,
    bundle_id: Seq<char>,
    pending: Seq<MigrationView>,
    migrations: nat,
)
    ensures
        total_weight(settings.apply_all(bundle_id, pending), migrations) == 2 * pending.len(),
    decreases pending.len(),
{
    if pending.len() > 0 {
        let before = settings.apply_all(bundle_id, pending.drop_last());
        let one = settings.apply_one(bundle_id, pending.last());
        lemma_weight_of_apply(settings, bundle_id, pending.drop_last(), migrations);
        lemma_weight_concat(before, one, migrations);
        assert(one.drop_first() =~= seq![one[1]]);
        assert(one.drop_first().drop_first() =~= Seq::empty());
        assert(total_weight(one.drop_first().drop_first(), migrations) == 0);
        assert(total_weight(one.drop_first(), migrations) == 1);
        assert(total_weight(one, migrations) == 2);
    }
}

/// Every answer brings a run closer to its end, so that a run ends after finitely
/// many commands whatever the database answers.
pub proof fn runs_end(run: RunView, reply: Reply, next: StepView)
    requires
        run.todo.len() > 0,
        answers(reply, run.todo[0].action),
        run.steps_to(reply, next),
        next is Next,
    ensures
        ({
            let after = next->Next_0;
            &&& after.bundle == run.bundle
            &&& after.settings == run.settings
            &&& after.todo.len() > 0
            &&& total_weight(after.todo, run.bundle.migrations.len()) < total_weight(
                run.todo,
                run.bundle.migrations.len(),
            )
        }),
{
    let migrations = run.bundle.migrations.len();
    let rest = run.todo.drop_first();
    assert(Seq::<CommandView>::empty() + rest =~= rest);
    match reply {
        Reply::Presence { ledger_exists, meta_exists } => {
            let created = run.settings.create_ledger();
            lemma_weight_concat(created, rest, migrations);
            let one = created.drop_first();
            let two = one.drop_first();
            assert(two.drop_first() =~= Seq::empty());
            assert(total_weight(two.drop_first(), migrations) == 0);
            assert(total_weight(two, migrations) == 1);
            assert(total_weight(one, migrations) == 2);
            assert(total_weight(created, migrations) == 3);
        },
        Reply::Ledger(applied) => {
            let pending = unrecorded(run.bundle.migrations, ledger_view(applied@));
            let apply = run.settings.apply_all(run.bundle.bundle_id, pending);
            lemma_weight_concat(apply, rest, migrations);
            lemma_weight_of_apply(run.settings, run.bundle.bundle_id, pending, migrations);
            run.bundle.migrations.lemma_filter_len(
                |migration: MigrationView| !ledger_view(applied@).contains_key(migration.version),
            );
        },
        _ => {},
    }
}

} // verus!
