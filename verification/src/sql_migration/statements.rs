//! What the statements on the plain ledger table mean, to a database that carries them
//! out as they are read.
use crate::scoped_migration::conversation::migrates;
use crate::scoped_migration::migration::Dialect;
use crate::scoped_migration::run::{ledger_after, ActionView, AppliedView, Reply};
use crate::scoped_migration::statements::{
    adds, adds_record, bound_values, carried_out, hands_out, holds_ledger, is_history, is_word,
    lemma_added, lemma_adds_dollar, lemma_adds_numbered, lemma_among_migrating, lemma_hands_out,
    lemma_history, lemma_one_ledger, lemma_reads_bundle, lemma_unchanged, reads_bundle, Cell,
};
use crate::sql_migration::conversation::{
    answered_from, complete_runs_apply_the_plan, fresh, is_conversation, is_exchange,
    runs_read_before_they_migrate, sent,
};
use crate::sql_migration::error::MigrationErrorView;
use crate::sql_migration::migration::BundleView;
use crate::sql_migration::plan::{ledger_view, unrecorded};
use crate::sql_migration::run::{
    lemma_ledger_after_apply, second_run_applies_nothing, RunView, SettingsView,
};
use vstd::prelude::*;
use vstd::string::*;

verus! {

proof fn lemma_reads(settings: SettingsView, bundle_id: Seq<char>)
    requires
        is_word(settings.ledger_table),
    ensures
        reads_bundle(settings.read_ledger(bundle_id)->ReadLedger_sql, settings.ledger_table),
{
    let table = settings.ledger_table;
    match settings.dialect {
        Dialect::Postgres => {
            lemma_reads_bundle(table, "$1"@, " WHERE bundle_id = $1 ORDER BY version"@);
        },
        Dialect::Sqlite => {
            lemma_reads_bundle(table, "?1"@, " WHERE bundle_id = ?1 ORDER BY version"@);
        },
    }
}

proof fn lemma_adds(settings: SettingsView)
    requires
        is_word(settings.ledger_table),
    ensures
        adds_record(settings.record_sql(), settings.ledger_table),
{
    match settings.dialect {
        Dialect::Postgres => {
            lemma_adds_dollar(settings.ledger_table);
        },
        Dialect::Sqlite => {
            lemma_adds_numbered(settings.ledger_table);
        },
    }
}

/// Where a run reads the ledger, its query, with the value bound, selects exactly the
/// rows of the ledger table that belong to the bundle, and hands out their versions and
/// checksums.
pub proof fn reads_select_the_rows_of_the_bundle(
    settings: SettingsView,
    bundle_id: Seq<char>,
    i: int,
    tables: spec_fn(Seq<char>) -> Set<Map<Seq<char>, Cell>>,
    ledger: Map<i64, Seq<char>>,
)
    requires
        is_word(settings.ledger_table),
        0 <= i < settings.run_program(bundle_id).len(),
    ensures
        ({
            let action = settings.run_program(bundle_id)[i].action;
            let table = settings.ledger_table;
            match action {
                ActionView::ReadLedger { sql, bundle_id: id, goal } => reads_bundle(sql, table) && (
                hands_out(sql, bound_values(action), tables, ledger) <==> holds_ledger(
                    tables(table),
                    bundle_id,
                    ledger,
                )),
                _ => true,
            }
        }),
{
    lemma_reads(settings, bundle_id);
    lemma_hands_out(
        settings.read_ledger(bundle_id)->ReadLedger_sql,
        settings.ledger_table,
        bundle_id,
        tables,
        ledger,
    );
}

/// What is recorded is read back: a record adds a row with the bundle, the version, the
/// checksum, the description and the applier that it names, and the next read for that
/// bundle hands out the version with its checksum beside all that the table held before.
pub proof fn recorded_rows_are_read_back(
    settings: SettingsView,
    row: AppliedView,
    applied_by: Seq<char>,
    before: spec_fn(Seq<char>) -> Set<Map<Seq<char>, Cell>>,
    after: spec_fn(Seq<char>) -> Set<Map<Seq<char>, Cell>>,
    ledger: Map<i64, Seq<char>>,
    read: Map<i64, Seq<char>>,
)
    requires
        is_word(settings.ledger_table),
        holds_ledger(before(settings.ledger_table), row.bundle_id, ledger),
        adds(
            settings.record_sql(),
            bound_values(ActionView::Record { sql: settings.record_sql(), row, applied_by }),
            before,
            after,
        ),
    ensures
        !ledger.contains_key(row.version),
        ({
            let action = settings.read_ledger(row.bundle_id);
            hands_out(action->ReadLedger_sql, bound_values(action), after, read) <==> read
                == ledger.insert(row.version, row.checksum)
        }),
{
    let sql = settings.record_sql();
    let table = settings.ledger_table;
    let id = row.bundle_id;
    lemma_adds(settings);
    lemma_reads(settings, id);
    lemma_added(sql, table, row, applied_by, before, after, ledger);
    lemma_hands_out(settings.read_ledger(id)->ReadLedger_sql, table, id, after, read);
    if holds_ledger(after(table), id, read) {
        lemma_one_ledger(after(table), id, read, ledger.insert(row.version, row.checksum));
    }
}

proof fn lemma_answered(
    runs: Seq<RunView>,
    replies: Seq<Reply>,
    outcome: Result<Seq<AppliedView>, MigrationErrorView>,
    states: Seq<spec_fn(Seq<char>) -> Set<Map<Seq<char>, Cell>>>,
    settings: SettingsView,
    bundle: BundleView,
    ledger: Map<i64, Seq<char>>,
)
    requires
        is_word(settings.ledger_table),
        is_conversation(runs, replies, outcome),
        runs[0] == fresh(settings, bundle),
        forall|i: int| 0 <= i < replies.len() ==> !(#[trigger] replies[i] is Failed),
        is_history(sent(runs), replies, settings.ledger_table, states),
        holds_ledger(states[0](settings.ledger_table), bundle.bundle_id, ledger),
    ensures
        answered_from(replies, ledger),
{
    let table = settings.ledger_table;
    let id = bundle.bundle_id;
    let commands = sent(runs);
    lemma_reads(settings, id);
    assert forall|i: int| 0 <= i < replies.len() implies match #[trigger] replies[i] {
        Reply::Failed { decoding, message } => false,
        Reply::Ledger(applied) => ledger_view(applied@) == ledger,
        _ => true,
    } by {
        if let Reply::Ledger(applied) = replies[i] {
            let read = crate::scoped_migration::plan::ledger_view(applied@);
            assert(read =~= ledger_view(applied@));
            assert(is_exchange(runs, replies, outcome, i));
            assert(commands[i] == runs[i].todo[0]);
            runs_read_before_they_migrate(runs, replies, outcome, settings, bundle, i);
            lemma_unchanged(commands, replies, table, states, i as nat);
            assert(carried_out(commands[i].action, replies[i], table, states[i], states[i + 1]));
            lemma_hands_out(
                settings.read_ledger(id)->ReadLedger_sql,
                table,
                id,
                states[i],
                read,
            );
            lemma_one_ledger(states[i](table), id, read, ledger);
        }
    }
}

/// A run on the database that a completed run of the same bundle left behind has
/// nothing to do: it succeeds, reports nothing, and executes and records no migration.
/// Both runs speak to a database through the texts of their statements alone.
pub proof fn runs_are_not_repeated(
    runs: Seq<RunView>,
    replies: Seq<Reply>,
    outcome: Result<Seq<AppliedView>, MigrationErrorView>,
    states: Seq<spec_fn(Seq<char>) -> Set<Map<Seq<char>, Cell>>>,
    again: Seq<RunView>,
    replies_again: Seq<Reply>,
    outcome_again: Result<Seq<AppliedView>, MigrationErrorView>,
    states_again: Seq<spec_fn(Seq<char>) -> Set<Map<Seq<char>, Cell>>>,
    settings: SettingsView,
    bundle: BundleView,
    ledger: Map<i64, Seq<char>>,
)
    requires
        is_word(settings.ledger_table),
        bundle.fault() is None,
        is_conversation(runs, replies, outcome),
        runs[0] == fresh(settings, bundle),
        forall|i: int| 0 <= i < replies.len() ==> !(#[trigger] replies[i] is Failed),
        is_history(sent(runs), replies, settings.ledger_table, states),
        holds_ledger(states[0](settings.ledger_table), bundle.bundle_id, ledger),
        outcome is Ok,
        is_conversation(again, replies_again, outcome_again),
        again[0] == fresh(settings, bundle),
        forall|i: int|
            0 <= i < replies_again.len() ==> !(#[trigger] replies_again[i] is Failed),
        is_history(sent(again), replies_again, settings.ledger_table, states_again),
        states_again[0](settings.ledger_table) == states.last()(settings.ledger_table),
    ensures
        outcome_again == Ok::<Seq<AppliedView>, MigrationErrorView>(Seq::empty()),
        forall|i: int| 0 <= i < again.len() ==> !migrates(#[trigger] sent(again)[i]),
        states_again.last()(settings.ledger_table) == states.last()(settings.ledger_table),
{
    let table = settings.ledger_table;
    let id = bundle.bundle_id;
    let commands = sent(runs);
    lemma_answered(runs, replies, outcome, states, settings, bundle, ledger);
    complete_runs_apply_the_plan(runs, replies, outcome, settings, bundle, ledger);
    lemma_adds(settings);
    let pending = unrecorded(bundle.migrations, ledger);
    assert forall|i: int| 0 <= i < commands.len() implies match (#[trigger] commands[i]).action {
        ActionView::Record { sql, row, applied_by } => adds_record(sql, table) && row.bundle_id
            == id,
        _ => true,
    } by {
        if commands[i].action is Record {
            let k = lemma_among_migrating(commands, i);
            let m = k / 2;
            let one = pending[m];
            assert(k == 2 * m || k == 2 * m + 1);
        }
    }
    assert(commands.take(commands.len() as int) =~= commands);
    lemma_history(commands, replies, table, states, id, ledger, commands.len());
    let left = ledger_after(ledger, commands);
    second_run_applies_nothing(settings, bundle, ledger);
    assert(pending.take(pending.len() as int) =~= pending);
    lemma_ledger_after_apply(settings, id, ledger, pending, pending.len());
    lemma_answered(again, replies_again, outcome_again, states_again, settings, bundle, left);
    complete_runs_apply_the_plan(
        again,
        replies_again,
        outcome_again,
        settings,
        bundle,
        left,
    );
    assert(outcome_again->Ok_0 =~= Seq::empty());
    assert forall|i: int| 0 <= i < again.len() implies !migrates(#[trigger] sent(again)[i]) by {
        if migrates(sent(again)[i]) {
            let k = lemma_among_migrating(sent(again), i);
        }
    }
    lemma_unchanged(sent(again), replies_again, table, states_again, sent(again).len());
}

} // verus!
