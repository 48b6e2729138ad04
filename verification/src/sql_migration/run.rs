//! A bundle run as a conversation with a database: which command comes next,
//! given the answer to the last one.
use crate::identifier::is_sql_identifier;
use crate::scoped_migration::ledger::{ledger_columns, ledger_columns_text};
use crate::scoped_migration::migration::Dialect;
use crate::scoped_migration::plan::AppliedMigration;
use crate::scoped_migration::run::{
    answers, applied_views, command, command_views, ledger_after, takes_guard, Action, ActionView,
    AppliedView, Command, CommandView, Goal, Reply,
};
use crate::sql_migration::error::{MigrationError, MigrationErrorView};
use crate::sql_migration::migration::{
    sql_identifier, BundleView, Migration, MigrationBundle, MigrationView,
};
use crate::sql_migration::plan::{
    agrees, is_plan, ledger_view, plan, plan_resumes_where_a_run_stopped, recorded, unrecorded,
};
use vstd::prelude::*;
use vstd::string::*;

verus! {

/// What a runner is set up with: its dialect, its ledger table, and who is
/// recorded as the applier.
#[derive(Debug, Clone)]
pub struct RunnerSettings {
    pub dialect: Dialect,
    pub ledger_table: String,
    pub applied_by: String,
}

/// [`RunnerSettings`] with its texts as character sequences.
pub struct SettingsView {
    pub dialect: Dialect,
    pub ledger_table: Seq<char>,
    pub applied_by: Seq<char>,
}

impl View for RunnerSettings {
    type V = SettingsView;

    open spec fn view(&self) -> SettingsView {
        SettingsView {
            dialect: self.dialect,
            ledger_table: self.ledger_table@,
            applied_by: self.applied_by@,
        }
    }
}

impl SettingsView {
    /// The statement that makes sure of the ledger table.
    pub open spec fn ledger_sql(self) -> Seq<char> {
        "CREATE TABLE IF NOT EXISTS "@ + self.ledger_table + ledger_columns(self.dialect)
    }

    /// The statement that records a row: bundle id, version, checksum,
    /// description and applier, bound in this order.
    pub open spec fn record_sql(self) -> Seq<char> {
        "INSERT INTO "@ + self.ledger_table + match self.dialect {
            Dialect::Postgres => " (bundle_id, version, checksum, description, applied_by)\n                 VALUES ($1, $2, $3, $4, $5)"@,
            Dialect::Sqlite => " (bundle_id, version, checksum, description, applied_by)\n                 VALUES (?1, ?2, ?3, ?4, ?5)"@,
        }
    }

    pub open spec fn read_ledger(self, bundle_id: Seq<char>) -> ActionView {
        ActionView::ReadLedger {
            sql: "SELECT version, checksum FROM "@ + self.ledger_table + match self.dialect {
                Dialect::Postgres => " WHERE bundle_id = $1 ORDER BY version"@,
                Dialect::Sqlite => " WHERE bundle_id = ?1 ORDER BY version"@,
            },
            bundle_id,
            goal: Goal::Apply,
        }
    }

    pub open spec fn apply_operation(self) -> Seq<char> {
        match self.dialect {
            Dialect::Postgres => "postgres_migration_apply"@,
            Dialect::Sqlite => "sqlite_migration_apply"@,
        }
    }

    pub open spec fn record_operation(self) -> Seq<char> {
        match self.dialect {
            Dialect::Postgres => "postgres_migration_record"@,
            Dialect::Sqlite => "sqlite_migration_record"@,
        }
    }

    /// The commands of a run, as they stand before the database has answered any
    /// of them.
    pub open spec fn run_program(self, bundle_id: Seq<char>) -> Seq<CommandView> {
        match self.dialect {
            Dialect::Postgres => seq![
                command(
                    "postgres_migration_ledger_schema"@,
                    ActionView::Execute { sql: self.ledger_sql() },
                ),
                command("postgres_migration_begin"@, ActionView::Begin),
                command(
                    "postgres_migration_lock"@,
                    ActionView::Lock { table: self.ledger_table, key: bundle_id },
                ),
                CommandView {
                    operation: "postgres_migration_read_ledger"@,
                    decoding: "postgres_migration_decode_ledger"@,
                    action: self.read_ledger(bundle_id),
                },
                command("postgres_migration_commit"@, ActionView::Commit),
            ],
            Dialect::Sqlite => seq![
                command(
                    "sqlite_migration_ledger_schema"@,
                    ActionView::Execute { sql: self.ledger_sql() },
                ),
                command("sqlite_migration_begin"@, ActionView::BeginImmediate),
                CommandView {
                    operation: "sqlite_migration_read_ledger"@,
                    decoding: "sqlite_migration_decode_ledger"@,
                    action: self.read_ledger(bundle_id),
                },
                command("sqlite_migration_commit"@, ActionView::Commit),
            ],
        }
    }

    /// Apply one migration: execute its SQL as it is, and record it.
    pub open spec fn apply_one(self, bundle_id: Seq<char>, migration: MigrationView) -> Seq<
        CommandView,
    > {
        seq![
            command(self.apply_operation(), ActionView::Apply { sql: migration.sql }),
            command(
                self.record_operation(),
                ActionView::Record {
                    sql: self.record_sql(),
                    row: row_of(bundle_id, migration),
                    applied_by: self.applied_by,
                },
            ),
        ]
    }

    /// Apply the pending migrations in order.
    pub open spec fn apply_all(self, bundle_id: Seq<char>, pending: Seq<MigrationView>) -> Seq<
        CommandView,
    >
        decreases pending.len(),
    {
        if pending.len() == 0 {
            Seq::empty()
        } else {
            self.apply_all(bundle_id, pending.drop_last()) + self.apply_one(
                bundle_id,
                pending.last(),
            )
        }
    }
}

/// The row that records a migration.
pub open spec fn row_of(bundle_id: Seq<char>, migration: MigrationView) -> AppliedView {
    AppliedView {
        bundle_id,
        version: migration.version,
        checksum: migration.checksum(),
        description: migration.description,
    }
}

/// The rows of the pending migrations.
pub open spec fn rows_of(bundle_id: Seq<char>, pending: Seq<MigrationView>) -> Seq<AppliedView> {
    pending.map_values(|migration: MigrationView| row_of(bundle_id, migration))
}

/// A run of a bundle: what it still has to send, the first command being the one
/// whose answer it awaits, and what it will report as applied.
#[derive(Debug)]
pub struct BundleRun<'a> {
    settings: RunnerSettings,
    bundle: &'a MigrationBundle,
    todo: Vec<Command>,
    applied: Vec<AppliedMigration>,
}

/// A [`BundleRun`] by its views.
pub struct RunView {
    pub settings: SettingsView,
    pub bundle: BundleView,
    pub todo: Seq<CommandView>,
    pub applied: Seq<AppliedView>,
}

impl<'a> View for BundleRun<'a> {
    type V = RunView;

    closed spec fn view(&self) -> RunView {
        RunView {
            settings: self.settings@,
            bundle: self.bundle@,
            todo: command_views(self.todo@),
            applied: applied_views(self.applied@),
        }
    }
}

/// What a run does next: await the answer to another command, or end.
#[derive(Debug)]
pub enum Step<'a> {
    Next(BundleRun<'a>),
    Over(Result<Vec<AppliedMigration>, MigrationError>),
}

/// A [`Step`] by its views.
pub enum StepView {
    Next(RunView),
    Over(Result<Seq<AppliedView>, MigrationErrorView>),
}

impl<'a> View for Step<'a> {
    type V = StepView;

    open spec fn view(&self) -> StepView {
        match *self {
            Step::Next(run) => StepView::Next(run@),
            Step::Over(Ok(applied)) => StepView::Over(Ok(applied_views(applied@))),
            Step::Over(Err(error)) => StepView::Over(Err(error@)),
        }
    }
}

impl RunView {
    /// The run goes on with the commands `front` before what is left, or ends
    /// where nothing is left.
    pub open spec fn continued(self, front: Seq<CommandView>, applied: Seq<AppliedView>) -> StepView {
        let todo = front + self.todo.drop_first();
        if todo.len() == 0 {
            StepView::Over(Ok(applied))
        } else {
            StepView::Next(RunView { todo, applied, ..self })
        }
    }

    /// `next` is what the run does on `reply`.
    pub open spec fn steps_to(self, reply: Reply, next: StepView) -> bool {
        let awaited = self.todo[0];
        match reply {
            Reply::Failed { decoding, message } => next == StepView::Over(
                Err(
                    MigrationErrorView::Backend {
                        operation: if decoding {
                            awaited.decoding
                        } else {
                            awaited.operation
                        },
                        message: message@,
                    },
                ),
            ),
            Reply::Ledger(applied) => {
                let ledger = ledger_view(applied@);
                let pending = unrecorded(self.bundle.migrations, ledger);
                match next {
                    StepView::Over(Err(fault)) => is_plan(self.bundle, ledger, Err(fault)),
                    _ => agrees(self.bundle, ledger) && next == self.continued(
                        self.settings.apply_all(self.bundle.bundle_id, pending),
                        rows_of(self.bundle.bundle_id, pending),
                    ),
                }
            },
            _ => next == self.continued(Seq::empty(), self.applied),
        }
    }
}

impl RunnerSettings {
    /// Settings whose ledger table carries `prefix`.
    pub(crate) fn with_prefix(dialect: Dialect, prefix: &str, applied_by: &str) -> (r: Result<
        RunnerSettings,
        MigrationError,
    >)
        ensures
            match r {
                Ok(settings) => is_sql_identifier(prefix@) && settings@ == (SettingsView {
                    dialect,
                    ledger_table: prefix@ + "_schema_migrations"@,
                    applied_by: applied_by@,
                }),
                Err(error) => !is_sql_identifier(prefix@) && error@
                    == MigrationErrorView::InvalidSqlIdentifier(prefix@),
            },
    {
        match sql_identifier(prefix) {
            Ok(name) => Ok(
                RunnerSettings {
                    dialect,
                    ledger_table: name.concat("_schema_migrations"),
                    applied_by: applied_by.to_owned(),
                },
            ),
            Err(error) => Err(error),
        }
    }

    fn ledger_text(&self) -> (sql: String)
        ensures
            sql@ == self@.ledger_sql(),
    {
        "CREATE TABLE IF NOT EXISTS ".to_owned().concat(self.ledger_table.as_str()).concat(
            ledger_columns_text(self.dialect),
        )
    }

    fn record_text(&self) -> (sql: String)
        ensures
            sql@ == self@.record_sql(),
    {
        "INSERT INTO ".to_owned().concat(self.ledger_table.as_str()).concat(
            match self.dialect {
                Dialect::Postgres => " (bundle_id, version, checksum, description, applied_by)\n                 VALUES ($1, $2, $3, $4, $5)",
                Dialect::Sqlite => " (bundle_id, version, checksum, description, applied_by)\n                 VALUES (?1, ?2, ?3, ?4, ?5)",
            },
        )
    }

    fn read_ledger_action(&self, bundle_id: &str) -> (action: Action)
        ensures
            action@ == self@.read_ledger(bundle_id@),
    {
        Action::ReadLedger {
            sql: "SELECT version, checksum FROM ".to_owned().concat(
                self.ledger_table.as_str(),
            ).concat(
                match self.dialect {
                    Dialect::Postgres => " WHERE bundle_id = $1 ORDER BY version",
                    Dialect::Sqlite => " WHERE bundle_id = ?1 ORDER BY version",
                },
            ),
            bundle_id: bundle_id.to_owned(),
            goal: Goal::Apply,
        }
    }

    fn run_commands(&self, bundle_id: &str) -> (commands: Vec<Command>)
        ensures
            commands@.len() > 0,
            command_views(commands@) == self@.run_program(bundle_id@),
    {
        let commands: Vec<Command> = match self.dialect {
            Dialect::Postgres => vec![
                Command::plain(
                    "postgres_migration_ledger_schema",
                    Action::Execute { sql: self.ledger_text() },
                ),
                Command::plain("postgres_migration_begin", Action::Begin),
                Command::plain(
                    "postgres_migration_lock",
                    Action::Lock { table: self.ledger_table.clone(), key: bundle_id.to_owned() },
                ),
                Command {
                    operation: "postgres_migration_read_ledger",
                    decoding: "postgres_migration_decode_ledger",
                    action: self.read_ledger_action(bundle_id),
                },
                Command::plain("postgres_migration_commit", Action::Commit),
            ],
            Dialect::Sqlite => vec![
                Command::plain(
                    "sqlite_migration_ledger_schema",
                    Action::Execute { sql: self.ledger_text() },
                ),
                Command::plain("sqlite_migration_begin", Action::BeginImmediate),
                Command {
                    operation: "sqlite_migration_read_ledger",
                    decoding: "sqlite_migration_decode_ledger",
                    action: self.read_ledger_action(bundle_id),
                },
                Command::plain("sqlite_migration_commit", Action::Commit),
            ],
        };
        assert(command_views(commands@) =~= self@.run_program(bundle_id@));
        commands
    }

    /// The commands that apply the pending migrations, and the rows that they
    /// record.
    fn apply_commands(&self, bundle_id: &str, pending: &Vec<&Migration>) -> (r: (
        Vec<Command>,
        Vec<AppliedMigration>,
    ))
        ensures
            ({
                let migrations = pending@.map_values(|migration: &Migration| migration@);
                &&& command_views(r.0@) == self@.apply_all(bundle_id@, migrations)
                &&& applied_views(r.1@) == rows_of(bundle_id@, migrations)
            }),
    {
        let ghost all = pending@.map_values(|migration: &Migration| migration@);
        let mut commands: Vec<Command> = Vec::new();
        let mut rows: Vec<AppliedMigration> = Vec::new();
        let mut i: usize = 0;
        assert(command_views(commands@) =~= self@.apply_all(bundle_id@, all.take(0)));
        assert(applied_views(rows@) =~= rows_of(bundle_id@, all.take(0)));
        while i < pending.len()
            invariant
                i <= pending@.len(),
                all == pending@.map_values(|migration: &Migration| migration@),
                command_views(commands@) == self@.apply_all(bundle_id@, all.take(i as int)),
                applied_views(rows@) == rows_of(bundle_id@, all.take(i as int)),
            decreases pending@.len() - i,
        {
            let migration = pending[i];
            let ghost before = commands@;
            let ghost rows_before = rows@;
            let checksum = migration.checksum();
            let recorded_row = AppliedMigration {
                bundle_id: bundle_id.to_owned(),
                version: migration.version(),
                checksum: checksum.clone(),
                description: migration.description().to_owned(),
            };
            let reported_row = AppliedMigration {
                bundle_id: bundle_id.to_owned(),
                version: migration.version(),
                checksum,
                description: migration.description().to_owned(),
            };
            let (apply_name, record_name) = match self.dialect {
                Dialect::Postgres => ("postgres_migration_apply", "postgres_migration_record"),
                Dialect::Sqlite => ("sqlite_migration_apply", "sqlite_migration_record"),
            };
            commands.push(
                Command::plain(apply_name, Action::Apply { sql: migration.sql().to_owned() }),
            );
            commands.push(
                Command::plain(
                    record_name,
                    Action::Record {
                        sql: self.record_text(),
                        row: recorded_row,
                        applied_by: self.applied_by.clone(),
                    },
                ),
            );
            rows.push(reported_row);
            i += 1;
            proof {
                let taken = all.take(i as int);
                assert(taken.drop_last() =~= all.take(i - 1));
                assert(taken.last() == migration@);
                assert(command_views(commands@) =~= command_views(before) + self@.apply_one(
                    bundle_id@,
                    migration@,
                ));
                assert(applied_views(rows@) =~= applied_views(rows_before).push(
                    row_of(bundle_id@, migration@),
                ));
                assert(rows_of(bundle_id@, taken) =~= rows_of(bundle_id@, all.take(i - 1)).push(
                    row_of(bundle_id@, migration@),
                ));
            }
        }
        assert(all.take(all.len() as int) =~= all);
        (commands, rows)
    }

    /// The same settings once more.
    pub(crate) fn duplicate(&self) -> (settings: RunnerSettings)
        ensures
            settings@ == self@,
    {
        RunnerSettings {
            dialect: self.dialect,
            ledger_table: self.ledger_table.clone(),
            applied_by: self.applied_by.clone(),
        }
    }

    /// Start a run that applies what is pending of a bundle.
    pub(crate) fn run<'a>(&self, bundle: &'a MigrationBundle) -> (run: BundleRun<'a>)
        ensures
            run@ == (RunView {
                settings: self@,
                bundle: bundle@,
                todo: self@.run_program(bundle@.bundle_id),
                applied: Seq::empty(),
            }),
    {
        let run = BundleRun {
            settings: self.duplicate(),
            bundle,
            todo: self.run_commands(bundle.bundle_id()),
            applied: Vec::new(),
        };
        assert(run@.applied =~= Seq::empty());
        run
    }
}

impl<'a> BundleRun<'a> {
    #[verifier::type_invariant]
    spec fn awaits_an_answer(self) -> bool {
        self.todo@.len() > 0
    }

    /// The command whose answer the run awaits.
    pub fn command(&self) -> (command: &Command)
        ensures
            self@.todo.len() > 0,
            command@ == self@.todo[0],
    {
        proof {
            use_type_invariant(self);
        }
        &self.todo[0]
    }

    /// Go on with `front` before what is left, or end where nothing is left.
    fn continue_with(self, front: Vec<Command>) -> (next: Step<'a>)
        ensures
            next@ == self@.continued(command_views(front@), self@.applied),
    {
        proof {
            use_type_invariant(&self);
        }
        let BundleRun { settings, bundle, todo, applied } = self;
        let mut rest = todo;
        let _answered = rest.remove(0);
        let mut coming = front;
        let ghost first = front@;
        coming.append(&mut rest);
        assert(command_views(coming@) =~= command_views(first) + self@.todo.drop_first());
        if coming.len() == 0 {
            Step::Over(Ok(applied))
        } else {
            Step::Next(BundleRun { settings, bundle, todo: coming, applied })
        }
    }

    /// What the run does on the answer to the command that it awaits: a failed
    /// command ends it with a backend error, the rows of the ledger decide what
    /// is applied, and every other answer lets it go on.
    pub fn step(self, reply: Reply) -> (next: Step<'a>)
        requires
            answers(reply, self@.todo[0].action),
        ensures
            self@.todo.len() > 0,
            self@.steps_to(reply, next@),
    {
        proof {
            use_type_invariant(&self);
        }
        assert(command_views(Seq::<Command>::empty()) =~= Seq::<CommandView>::empty());
        match reply {
            Reply::Failed { decoding, message } => {
                let operation = if decoding {
                    self.todo[0].decoding
                } else {
                    self.todo[0].operation
                };
                Step::Over(Err(MigrationError::Backend { operation, message }))
            },
            Reply::Ledger(ledger) => {
                let bundle = self.bundle;
                match plan(bundle, &ledger) {
                    Err(error) => Step::Over(Err(error)),
                    Ok(pending) => {
                        let (commands, rows) = self.settings.apply_commands(
                            bundle.bundle_id(),
                            &pending,
                        );
                        proof {
                            use_type_invariant(&self);
                        }
                        let BundleRun { settings, bundle, todo, applied: _ } = self;
                        let run = BundleRun { settings, bundle, todo, applied: rows };
                        run.continue_with(commands)
                    },
                }
            },
            _ => self.continue_with(Vec::new()),
        }
    }
}

/// The commands with which a run starts take the single-applier guard right before
/// they read the ledger, in the transaction that they end with, and apply nothing.
pub proof fn programs_read_under_the_guard(settings: SettingsView, bundle_id: Seq<char>)
    ensures
        ({
            let program = settings.run_program(bundle_id);
            let read = program.len() - 2;
            let guard = read - 1;
            &&& takes_guard(program[guard].action, settings.ledger_table, bundle_id)
            &&& program[read].action == settings.read_ledger(bundle_id)
            &&& program[read + 1].action is Commit
            &&& forall|i: int|
                0 <= i < program.len() ==> !((#[trigger] program[i]).action is Apply) && !(
                program[i].action is Record)
        }),
{
}

pub(crate) proof fn lemma_ledger_after_apply(
    settings: SettingsView,
    bundle_id: Seq<char>,
    ledger: Map<i64, Seq<char>>,
    pending: Seq<MigrationView>,
    n: nat,
)
    requires
        n <= pending.len(),
    ensures
        ledger_after(ledger, settings.apply_all(bundle_id, pending.take(n as int))) == recorded(
            ledger,
            pending,
            n,
        ),
    decreases n,
{
    let taken = pending.take(n as int);
    if n > 0 {
        lemma_ledger_after_apply(settings, bundle_id, ledger, pending, (n - 1) as nat);
        assert(taken.drop_last() =~= pending.take(n - 1));
        let before = settings.apply_all(bundle_id, taken.drop_last());
        let one = settings.apply_one(bundle_id, taken.last());
        let all = settings.apply_all(bundle_id, taken);
        assert(all.drop_last() =~= before + seq![one[0]]);
        assert(all.drop_last().drop_last() =~= before);
        assert(all.last() == one[1]);
        assert(all.drop_last().last() == one[0]);
        assert(ledger_after(ledger, all.drop_last()) == ledger_after(ledger, before));
    } else {
        assert(taken.len() == 0);
    }
}

/// A complete run is idempotent: once its commands were carried out, the ledger
/// agrees with the bundle and a second run has nothing to apply.
pub proof fn second_run_applies_nothing(
    settings: SettingsView,
    bundle: BundleView,
    ledger: Map<i64, Seq<char>>,
)
    requires
        bundle.fault() is None,
        agrees(bundle, ledger),
    ensures
        ({
            let pending = unrecorded(bundle.migrations, ledger);
            let after = ledger_after(ledger, settings.apply_all(bundle.bundle_id, pending));
            &&& agrees(bundle, after)
            &&& unrecorded(bundle.migrations, after) == Seq::<MigrationView>::empty()
        }),
{
    let pending = unrecorded(bundle.migrations, ledger);
    assert(pending.take(pending.len() as int) =~= pending);
    lemma_ledger_after_apply(settings, bundle.bundle_id, ledger, pending, pending.len());
    plan_resumes_where_a_run_stopped(bundle, ledger, pending.len());
    assert(pending.skip(pending.len() as int) =~= Seq::empty());
}

} // verus!
