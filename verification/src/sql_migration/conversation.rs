//! Whole runs of the plain ledger: what a conversation with a database comes to,
//! from the first command to the outcome.
use crate::scoped_migration::conversation::{
    guard_taken, holds_guard, lemma_ledger_by_migrating, migrates, migrating, unbroken,
};
use crate::scoped_migration::migration::Dialect;
use crate::scoped_migration::run::{
    answers, bounds_transaction, ledger_after, takes_guard, ActionView, AppliedView, CommandView,
    Reply,
};
use crate::sql_migration::error::MigrationErrorView;
use crate::sql_migration::migration::{BundleView, MigrationView};
use crate::sql_migration::plan::{agrees, is_plan, ledger_view, recorded, unrecorded};
use crate::sql_migration::run::{
    lemma_ledger_after_apply, rows_of, RunView, SettingsView, StepView,
};
use vstd::prelude::*;

verus! {

/// Where run `i` of a conversation leads.
pub open spec fn led_to(
    runs: Seq<RunView>,
    outcome: Result<Seq<AppliedView>, MigrationErrorView>,
    i: int,
) -> StepView {
    if i + 1 < runs.len() {
        StepView::Next(runs[i + 1])
    } else {
        StepView::Over(outcome)
    }
}

/// Reply `i` answers the command that run `i` awaits, and leads on.
pub open spec fn is_exchange(
    runs: Seq<RunView>,
    replies: Seq<Reply>,
    outcome: Result<Seq<AppliedView>, MigrationErrorView>,
    i: int,
) -> bool {
    &&& runs[i].todo.len() > 0
    &&& answers(replies[i], runs[i].todo[0].action)
    &&& runs[i].steps_to(replies[i], led_to(runs, outcome, i))
}

/// A run from its start to its outcome: each reply answers the command that the run
/// awaits, and leads to the next run or, the last one, to the outcome.
pub open spec fn is_conversation(
    runs: Seq<RunView>,
    replies: Seq<Reply>,
    outcome: Result<Seq<AppliedView>, MigrationErrorView>,
) -> bool {
    &&& 0 < runs.len() == replies.len()
    &&& forall|i: int| 0 <= i < runs.len() ==> #[trigger] is_exchange(runs, replies, outcome, i)
}

/// The run with which a bundle starts to be applied.
pub open spec fn fresh(settings: SettingsView, bundle: BundleView) -> RunView {
    RunView {
        settings,
        bundle,
        todo: settings.run_program(bundle.bundle_id),
        applied: Seq::empty(),
    }
}

/// The commands that were sent in a conversation.
pub open spec fn sent(runs: Seq<RunView>) -> Seq<CommandView> {
    runs.map_values(|run: RunView| run.todo[0])
}

/// The database answers as one that holds the rows `ledger` for the bundle, and no
/// command fails.
pub open spec fn answered_from(replies: Seq<Reply>, ledger: Map<i64, Seq<char>>) -> bool {
    forall|i: int|
        0 <= i < replies.len() ==> match #[trigger] replies[i] {
            Reply::Failed { decoding, message } => false,
            Reply::Ledger(applied) => ledger_view(applied@) == ledger,
            _ => true,
        }
}

/// The run has not read the ledger yet: it reads it and commits behind commands
/// that neither read it nor migrate.
spec fn preparing(run: RunView, settings: SettingsView, bundle: BundleView) -> bool {
    let n = run.todo.len() - 2;
    &&& run.settings == settings
    &&& run.bundle == bundle
    &&& n >= 0
    &&& run.todo[n].action == settings.read_ledger(bundle.bundle_id)
    &&& run.todo[n + 1].action is Commit
    &&& forall|j: int|
        0 <= j < n ==> !migrates(#[trigger] run.todo[j]) && !(run.todo[j].action is ReadLedger)
}

/// The run has read the ledger: the last commands of `apply` are left, and the
/// commit.
spec fn applying(run: RunView, apply: Seq<CommandView>, rows: Seq<AppliedView>, n: int) -> bool {
    &&& 0 <= n <= apply.len()
    &&& run.todo.len() == apply.len() - n + 1
    &&& run.todo.drop_last() == apply.skip(n)
    &&& run.todo.last().action is Commit
    &&& run.applied == rows
}

proof fn lemma_all_migrate(settings: SettingsView, bundle_id: Seq<char>, pending: Seq<MigrationView>)
    ensures
        ({
            let apply = settings.apply_all(bundle_id, pending);
            &&& apply.len() == 2 * pending.len()
            &&& forall|i: int| 0 <= i < apply.len() ==> migrates(#[trigger] apply[i])
            &&& forall|k: int|
                0 <= k < pending.len() ==> apply[2 * k] == settings.apply_one(
                    bundle_id,
                    #[trigger] pending[k],
                )[0] && apply[2 * k + 1] == settings.apply_one(bundle_id, pending[k])[1]
        }),
    decreases pending.len(),
{
    if pending.len() > 0 {
        let rest = pending.drop_last();
        lemma_all_migrate(settings, bundle_id, rest);
        let apply = settings.apply_all(bundle_id, pending);
        let before = settings.apply_all(bundle_id, rest);
        let one = settings.apply_one(bundle_id, pending.last());
        assert(apply == before + one);
        assert forall|i: int| 0 <= i < apply.len() implies migrates(#[trigger] apply[i]) by {
            if i < before.len() {
                assert(apply[i] == before[i]);
            } else {
                assert(apply[i] == one[i - before.len()]);
            }
        }
        assert forall|k: int| 0 <= k < pending.len() implies apply[2 * k] == settings.apply_one(
            bundle_id,
            #[trigger] pending[k],
        )[0] && apply[2 * k + 1] == settings.apply_one(bundle_id, pending[k])[1] by {
            if k < rest.len() {
                assert(rest[k] == pending[k]);
                assert(apply[2 * k] == before[2 * k]);
                assert(apply[2 * k + 1] == before[2 * k + 1]);
            }
        }
    }
}

/// From the read of the ledger on, the rest of the commands is sent one by one, and
/// the rows are reported.
proof fn lemma_applying(
    runs: Seq<RunView>,
    replies: Seq<Reply>,
    outcome: Result<Seq<AppliedView>, MigrationErrorView>,
    apply: Seq<CommandView>,
    rows: Seq<AppliedView>,
    i: int,
    n: int,
)
    requires
        is_conversation(runs, replies, outcome),
        0 <= i < runs.len(),
        forall|k: int| 0 <= k < replies.len() ==> !(#[trigger] replies[k] is Failed),
        forall|k: int| 0 <= k < apply.len() ==> migrates(#[trigger] apply[k]),
        applying(runs[i], apply, rows, n),
    ensures
        outcome == Ok::<Seq<AppliedView>, MigrationErrorView>(rows),
        migrating(sent(runs.skip(i))) == apply.skip(n),
    decreases runs.len() - i,
{
    let run = runs[i];
    assert(is_exchange(runs, replies, outcome, i));
    let here = sent(runs.skip(i));
    assert(here[0] == run.todo[0]);
    assert(here.drop_first() =~= sent(runs.skip(i + 1)));
    assert(!(replies[i] is Failed));
    let rest = run.todo.drop_first();
    assert(Seq::<CommandView>::empty() + rest =~= rest);
    if n < apply.len() {
        assert(run.todo[0] == run.todo.drop_last()[0]);
        assert(run.todo[0] == apply[n]);
        assert(migrates(apply[n]));
        assert(i + 1 < runs.len());
        assert(runs[i + 1].todo == rest);
        assert(rest.drop_last() =~= apply.skip(n + 1)) by {
            assert forall|k: int| 0 <= k < rest.len() - 1 implies rest[k] == apply.skip(n + 1)[k] by {
                assert(rest[k] == run.todo.drop_last()[k + 1]);
            }
        }
        assert(rest.last() == run.todo.last());
        lemma_applying(runs, replies, outcome, apply, rows, i + 1, n + 1);
        assert(apply.skip(n) =~= seq![apply[n]] + apply.skip(n + 1));
    } else {
        assert(run.todo[0] == run.todo.last());
        assert(rest.len() == 0);
        assert(i + 1 == runs.len());
        assert(here.drop_first() =~= Seq::empty());
        assert(migrating(here.drop_first()) == Seq::<CommandView>::empty());
        assert(apply.skip(n) =~= Seq::empty());
    }
}

/// Until the ledger is read nothing migrates; what follows the read is the plan.
proof fn lemma_preparing(
    runs: Seq<RunView>,
    replies: Seq<Reply>,
    outcome: Result<Seq<AppliedView>, MigrationErrorView>,
    settings: SettingsView,
    bundle: BundleView,
    ledger: Map<i64, Seq<char>>,
    i: int,
)
    requires
        is_conversation(runs, replies, outcome),
        answered_from(replies, ledger),
        0 <= i < runs.len(),
        preparing(runs[i], settings, bundle),
    ensures
        ({
            let pending = unrecorded(bundle.migrations, ledger);
            match outcome {
                Ok(rows) => agrees(bundle, ledger) && rows
                    == rows_of(bundle.bundle_id, pending) && migrating(sent(runs.skip(i)))
                    == settings.apply_all(bundle.bundle_id, pending),
                Err(fault) => !agrees(bundle, ledger) && is_plan(
                    bundle,
                    ledger,
                    Err(fault),
                ) && migrating(sent(runs.skip(i))) == Seq::<CommandView>::empty(),
            }
        }),
    decreases runs.len() - i,
{
    let run = runs[i];
    let reply = replies[i];
    assert(is_exchange(runs, replies, outcome, i));
    let here = sent(runs.skip(i));
    assert(here[0] == run.todo[0]);
    assert(here.drop_first() =~= sent(runs.skip(i + 1)));
    let rest = run.todo.drop_first();
    let n = run.todo.len() - 2;
    assert(Seq::<CommandView>::empty() + rest =~= rest);
    assert(!(reply is Failed));
    if n == 0 {
        assert(reply is Ledger);
        let pending = unrecorded(bundle.migrations, ledger);
        let apply = settings.apply_all(bundle.bundle_id, pending);
        lemma_all_migrate(settings, bundle.bundle_id, pending);
        if agrees(bundle, ledger) {
            let todo = apply + rest;
            assert(rest.len() == 1);
            assert(i + 1 < runs.len());
            assert(runs[i + 1].todo == todo);
            assert(apply.skip(0) =~= apply);
            assert(todo.drop_last() =~= apply);
            assert(todo.last() == rest[0]);
            lemma_applying(
                runs,
                replies,
                outcome,
                apply,
                rows_of(bundle.bundle_id, pending),
                i + 1,
                0,
            );
        } else {
            assert(i + 1 == runs.len());
            assert(here.drop_first() =~= Seq::empty());
            assert(migrating(here.drop_first()) == Seq::<CommandView>::empty());
        }
    } else {
        assert(!migrates(run.todo[0]) && !(run.todo[0].action is ReadLedger));
        assert(i + 1 < runs.len());
        assert(runs[i + 1].todo == rest);
        assert forall|j: int| 0 <= j < rest.len() - 2 implies !migrates(#[trigger] rest[j]) && !(
        rest[j].action is ReadLedger) by {
            assert(rest[j] == run.todo[j + 1]);
        }
        assert(rest[rest.len() - 2] == run.todo[n]);
        assert(rest[rest.len() - 1] == run.todo[n + 1]);
        lemma_preparing(runs, replies, outcome, settings, bundle, ledger, i + 1);
    }
}

proof fn lemma_fresh_is_preparing(settings: SettingsView, bundle: BundleView)
    ensures
        preparing(fresh(settings, bundle), settings, bundle),
{
}

/// A whole run against a database that answers every command. The run succeeds
/// exactly if bundle and ledger agree.
///
/// Where it succeeds, the report is the rows of the unrecorded migrations in
/// order; what it sent of migrations is, for each of them in turn, its SQL as it is
/// and then its row; and the ledger gains exactly these rows. Where it fails, the
/// error is the plan's, no migration was executed or recorded, and the ledger is
/// as it was.
pub proof fn complete_runs_apply_the_plan(
    runs: Seq<RunView>,
    replies: Seq<Reply>,
    outcome: Result<Seq<AppliedView>, MigrationErrorView>,
    settings: SettingsView,
    bundle: BundleView,
    ledger: Map<i64, Seq<char>>,
)
    requires
        is_conversation(runs, replies, outcome),
        runs[0] == fresh(settings, bundle),
        answered_from(replies, ledger),
    ensures
        outcome is Ok <==> agrees(bundle, ledger),
        match outcome {
            Ok(rows) => {
                let pending = unrecorded(bundle.migrations, ledger);
                let commands = migrating(sent(runs));
                &&& rows == rows_of(bundle.bundle_id, pending)
                &&& commands.len() == 2 * pending.len()
                &&& forall|k: int|
                    0 <= k < pending.len() ==> commands[2 * k].action == (ActionView::Apply {
                        sql: (#[trigger] pending[k]).sql,
                    }) && commands[2 * k + 1].action == (ActionView::Record {
                        sql: settings.record_sql(),
                        row: rows[k],
                        applied_by: settings.applied_by,
                    })
                &&& ledger_after(ledger, sent(runs)) == recorded(
                    ledger,
                    pending,
                    pending.len(),
                )
            },
            Err(fault) => {
                &&& is_plan(bundle, ledger, Err(fault))
                &&& migrating(sent(runs)) == Seq::<CommandView>::empty()
                &&& ledger_after(ledger, sent(runs)) == ledger
            },
        },
{
    lemma_fresh_is_preparing(settings, bundle);
    lemma_preparing(runs, replies, outcome, settings, bundle, ledger, 0);
    assert(runs.skip(0) =~= runs);
    lemma_ledger_by_migrating(ledger, sent(runs));
    let pending = unrecorded(bundle.migrations, ledger);
    lemma_all_migrate(settings, bundle.bundle_id, pending);
    assert(pending.take(pending.len() as int) =~= pending);
    lemma_ledger_after_apply(settings, bundle.bundle_id, ledger, pending, pending.len());
}

/// The guard is still to be taken, by command `g`, before the ledger is read.
spec fn guard_ahead(
    todo: Seq<CommandView>,
    settings: SettingsView,
    bundle_id: Seq<char>,
    g: int,
) -> bool {
    &&& 0 <= g < todo.len() - 1
    &&& takes_guard(todo[g].action, settings.ledger_table, bundle_id)
    &&& unbroken(todo, g + 1)
    &&& forall|j: int|
        0 <= j <= g ==> !migrates(#[trigger] todo[j]) && !(todo[j].action is ReadLedger)
}

/// Before run `i` the guard is still to be taken, or it is held up to the commit.
spec fn guard_sure(
    runs: Seq<RunView>,
    settings: SettingsView,
    bundle: BundleView,
    i: int,
) -> bool {
    let todo = runs[i].todo;
    &&& runs[i].settings == settings
    &&& runs[i].bundle == bundle
    &&& {
        ||| exists|g: int| #[trigger] guard_ahead(todo, settings, bundle.bundle_id, g)
        ||| holds_guard(sent(runs.take(i)), settings.ledger_table, bundle.bundle_id) && unbroken(
            todo,
            0,
        )
    }
}

/// What a run puts before the commands that are left bounds no transaction, and
/// migrates only where the ledger was read.
proof fn lemma_front(run: RunView, reply: Reply, next: RunView) -> (front: Seq<CommandView>)
    requires
        run.todo.len() > 0,
        answers(reply, run.todo[0].action),
        run.steps_to(reply, StepView::Next(next)),
    ensures
        next.settings == run.settings,
        next.bundle == run.bundle,
        next.todo == front + run.todo.drop_first(),
        next.todo.len() > 0,
        forall|k: int| 0 <= k < front.len() ==> !bounds_transaction((#[trigger] front[k]).action),
        !(run.todo[0].action is ReadLedger) ==> forall|k: int|
            0 <= k < front.len() ==> !migrates(#[trigger] front[k]) && !(
            front[k].action is ReadLedger),
        forall|k: int| 0 <= k < front.len() ==> !((#[trigger] front[k]).action is ReadLedger),
{
    match reply {
        Reply::Ledger(applied) => {
            let pending = unrecorded(run.bundle.migrations, ledger_view(applied@));
            lemma_all_migrate(run.settings, run.bundle.bundle_id, pending);
            let apply = run.settings.apply_all(run.bundle.bundle_id, pending);
            assert forall|k: int| 0 <= k < apply.len() implies !bounds_transaction(
                (#[trigger] apply[k]).action,
            ) && !(apply[k].action is ReadLedger) by {
                assert(migrates(apply[k]));
            }
            apply
        },
        _ => Seq::empty(),
    }
}

proof fn lemma_unbroken_step(run: RunView, reply: Reply, next: RunView)
    requires
        run.todo.len() > 0,
        answers(reply, run.todo[0].action),
        run.steps_to(reply, StepView::Next(next)),
        unbroken(run.todo, 0),
    ensures
        unbroken(next.todo, 0),
        !bounds_transaction(run.todo[0].action),
{
    let front = lemma_front(run, reply, next);
    let rest = run.todo.drop_first();
    if run.todo.len() == 1 {
        assert(run.todo[0] == run.todo.last());
        assert(reply is Done);
        assert(next.todo == Seq::<CommandView>::empty() + rest);
        assert(false);
    }
    assert(next.todo.last() == run.todo.last());
    assert forall|j: int| 0 <= j < next.todo.len() - 1 implies !bounds_transaction(
        (#[trigger] next.todo[j]).action,
    ) by {
        if j < front.len() {
            assert(next.todo[j] == front[j]);
        } else {
            assert(next.todo[j] == run.todo[j - front.len() + 1]);
        }
    }
}

proof fn lemma_guard(
    runs: Seq<RunView>,
    replies: Seq<Reply>,
    outcome: Result<Seq<AppliedView>, MigrationErrorView>,
    settings: SettingsView,
    bundle: BundleView,
    i: int,
)
    requires
        is_conversation(runs, replies, outcome),
        runs[0] == fresh(settings, bundle),
        0 <= i < runs.len(),
    ensures
        guard_sure(runs, settings, bundle, i),
    decreases i,
{
    let id = bundle.bundle_id;
    if i == 0 {
        let g = match settings.dialect {
            Dialect::Postgres => 2int,
            Dialect::Sqlite => 1,
        };
        assert(guard_ahead(runs[0].todo, settings, id, g));
    } else {
        lemma_guard(runs, replies, outcome, settings, bundle, i - 1);
        assert(is_exchange(runs, replies, outcome, i - 1));
        let run = runs[i - 1];
        let next = runs[i];
        let front = lemma_front(run, replies[i - 1], next);
        let before = sent(runs.take(i - 1));
        let after = sent(runs.take(i));
        assert(after =~= before.push(run.todo[0]));
        if exists|g: int| #[trigger] guard_ahead(run.todo, settings, id, g) {
            let g = choose|g: int| #[trigger] guard_ahead(run.todo, settings, id, g);
            let shift = front.len() - 1;
            assert(!(run.todo[0].action is ReadLedger));
            assert(next.todo.last() == run.todo.last());
            assert forall|j: int| g + shift < j < next.todo.len() - 1 implies !bounds_transaction(
                (#[trigger] next.todo[j]).action,
            ) by {
                if j >= front.len() {
                    assert(next.todo[j] == run.todo[j - shift]);
                } else {
                    assert(next.todo[j] == front[j]);
                }
            }
            if g > 0 {
                assert(next.todo[g + shift] == run.todo[g]);
                assert forall|j: int| 0 <= j <= g + shift implies !migrates(
                    #[trigger] next.todo[j],
                ) && !(next.todo[j].action is ReadLedger) by {
                    if j < front.len() {
                        assert(next.todo[j] == front[j]);
                    } else {
                        assert(next.todo[j] == run.todo[j - shift]);
                    }
                }
                assert(guard_ahead(next.todo, settings, id, g + shift));
            } else {
                assert(guard_taken(after, settings.ledger_table, id, before.len() as int));
                assert forall|j: int| 0 <= j < next.todo.len() - 1 implies !bounds_transaction(
                    (#[trigger] next.todo[j]).action,
                ) by {
                    if j < front.len() {
                        assert(next.todo[j] == front[j]);
                    } else {
                        assert(next.todo[j] == run.todo[j - shift]);
                    }
                }
                assert(unbroken(next.todo, 0));
            }
        } else {
            let g = choose|g: int| #[trigger] guard_taken(before, settings.ledger_table, id, g);
            lemma_unbroken_step(run, replies[i - 1], next);
            assert(guard_taken(after, settings.ledger_table, id, g)) by {
                assert forall|j: int| g < j < after.len() implies !bounds_transaction(
                    (#[trigger] after[j]).action,
                ) by {
                    if j < before.len() {
                        assert(after[j] == before[j]);
                    }
                }
            }
        }
    }
}

/// A run holds the single-applier guard whenever it reads the
/// ledger, executes a migration or records one, and still when it commits: it took
/// the guard before, and has opened and ended no transaction since. That holds of
/// every run, however the database answers.
pub proof fn runs_keep_the_guard(
    runs: Seq<RunView>,
    replies: Seq<Reply>,
    outcome: Result<Seq<AppliedView>, MigrationErrorView>,
    settings: SettingsView,
    bundle: BundleView,
    i: int,
)
    requires
        is_conversation(runs, replies, outcome),
        runs[0] == fresh(settings, bundle),
        0 <= i < runs.len(),
        ({
            ||| migrates(sent(runs)[i])
            ||| sent(runs)[i].action is ReadLedger
            ||| i + 1 == runs.len() && outcome is Ok
        }),
    ensures
        holds_guard(sent(runs).take(i), settings.ledger_table, bundle.bundle_id),
{
    lemma_guard(runs, replies, outcome, settings, bundle, i);
    assert(is_exchange(runs, replies, outcome, i));
    assert(sent(runs).take(i) =~= sent(runs.take(i)));
    let todo = runs[i].todo;
    if exists|g: int| #[trigger] guard_ahead(todo, settings, bundle.bundle_id, g) {
        let g = choose|g: int| #[trigger] guard_ahead(todo, settings, bundle.bundle_id, g);
        assert(!migrates(todo[0]) && !(todo[0].action is ReadLedger));
        assert(todo.drop_first().len() > 0);
    }
}

proof fn lemma_stays_unbroken(
    runs: Seq<RunView>,
    replies: Seq<Reply>,
    outcome: Result<Seq<AppliedView>, MigrationErrorView>,
    i: int,
    j: int,
)
    requires
        is_conversation(runs, replies, outcome),
        0 <= i <= j < runs.len(),
        unbroken(runs[i].todo, 0),
    ensures
        unbroken(runs[j].todo, 0),
    decreases j - i,
{
    if i < j {
        lemma_stays_unbroken(runs, replies, outcome, i, j - 1);
        assert(is_exchange(runs, replies, outcome, j - 1));
        lemma_unbroken_step(runs[j - 1], replies[j - 1], runs[j]);
    }
}

/// A run is applied as a whole or not at all: where it ends in an error, no commit
/// was carried out after a migration was executed or recorded, so that the rollback
/// undoes them all.
pub proof fn failed_runs_commit_no_migration(
    runs: Seq<RunView>,
    replies: Seq<Reply>,
    outcome: Result<Seq<AppliedView>, MigrationErrorView>,
    settings: SettingsView,
    bundle: BundleView,
    i: int,
    j: int,
)
    requires
        is_conversation(runs, replies, outcome),
        runs[0] == fresh(settings, bundle),
        outcome is Err,
        0 <= i < j < runs.len(),
        migrates(sent(runs)[i]),
        sent(runs)[j].action is Commit,
    ensures
        replies[j] is Failed,
{
    lemma_guard(runs, replies, outcome, settings, bundle, i);
    let todo = runs[i].todo;
    if exists|g: int| #[trigger] guard_ahead(todo, settings, bundle.bundle_id, g) {
        let g = choose|g: int| #[trigger] guard_ahead(todo, settings, bundle.bundle_id, g);
        assert(!migrates(todo[0]));
    }
    lemma_stays_unbroken(runs, replies, outcome, i, j);
    assert(is_exchange(runs, replies, outcome, j));
    let last = runs[j].todo;
    assert(bounds_transaction(last[0].action));
    assert(last.len() == 1);
    assert(Seq::<CommandView>::empty() + last.drop_first() =~= Seq::empty());
}

/// Nothing is left that reads the ledger.
spec fn reads_no_more(todo: Seq<CommandView>) -> bool {
    forall|k: int| 0 <= k < todo.len() ==> !((#[trigger] todo[k]).action is ReadLedger)
}

proof fn lemma_reads_once(
    runs: Seq<RunView>,
    replies: Seq<Reply>,
    outcome: Result<Seq<AppliedView>, MigrationErrorView>,
    settings: SettingsView,
    bundle: BundleView,
    i: int,
)
    requires
        is_conversation(runs, replies, outcome),
        runs[0] == fresh(settings, bundle),
        0 <= i < runs.len(),
    ensures
        ({
            ||| preparing(runs[i], settings, bundle) && forall|j: int|
                0 <= j < i ==> !migrates(#[trigger] sent(runs)[j])
            ||| reads_no_more(runs[i].todo)
        }),
    decreases i,
{
    if i == 0 {
        lemma_fresh_is_preparing(settings, bundle);
    } else {
        lemma_reads_once(runs, replies, outcome, settings, bundle, i - 1);
        assert(is_exchange(runs, replies, outcome, i - 1));
        let run = runs[i - 1];
        let next = runs[i];
        let front = lemma_front(run, replies[i - 1], next);
        let rest = run.todo.drop_first();
        assert(forall|k: int| 0 <= k < front.len() ==> #[trigger] next.todo[k] == front[k]);
        assert forall|k: int| front.len() <= k < next.todo.len() implies #[trigger] next.todo[k]
            == run.todo[k - front.len() + 1] by {
            assert(next.todo[k] == rest[k - front.len()]);
        }
        if reads_no_more(run.todo) {
            assert(reads_no_more(next.todo));
        } else {
            let n = run.todo.len() - 2;
            if n == 0 {
                assert(next.todo.last() == run.todo[1]);
                assert(reads_no_more(next.todo));
            } else {
                assert(!migrates(run.todo[0]) && !(run.todo[0].action is ReadLedger));
                let m = next.todo.len() - 2;
                assert(next.todo[m] == run.todo[n]);
                assert(next.todo[m + 1] == run.todo[n + 1]);
                assert forall|j: int| 0 <= j < m implies !migrates(#[trigger] next.todo[j]) && !(
                next.todo[j].action is ReadLedger) by {
                    if j < front.len() {
                        assert(next.todo[j] == front[j]);
                    } else {
                        assert(next.todo[j] == run.todo[j - front.len() + 1]);
                    }
                }
                assert(sent(runs)[i - 1] == run.todo[0]);
            }
        }
    }
}

/// A run reads the ledger before it executes or records anything, and only then.
pub proof fn runs_read_before_they_migrate(
    runs: Seq<RunView>,
    replies: Seq<Reply>,
    outcome: Result<Seq<AppliedView>, MigrationErrorView>,
    settings: SettingsView,
    bundle: BundleView,
    i: int,
)
    requires
        is_conversation(runs, replies, outcome),
        runs[0] == fresh(settings, bundle),
        0 <= i < runs.len(),
        sent(runs)[i].action is ReadLedger,
    ensures
        forall|j: int| 0 <= j < i ==> !migrates(#[trigger] sent(runs)[j]),
        sent(runs)[i].action == settings.read_ledger(bundle.bundle_id),
{
    lemma_reads_once(runs, replies, outcome, settings, bundle, i);
    assert(is_exchange(runs, replies, outcome, i));
    let todo = runs[i].todo;
    assert(sent(runs)[i] == todo[0]);
    let n = todo.len() - 2;
    if !reads_no_more(todo) && n > 0 {
        assert(!(todo[0].action is ReadLedger));
    }
}

} // verus!
