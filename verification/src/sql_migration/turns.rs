//! Whole batches: what running several bundles comes to.
use crate::scoped_migration::migration::Dialect;
use crate::scoped_migration::run::{answers, AppliedView, Reply};
use crate::sql_migration::batch::{batch_starts, BatchStepView, BatchView};
use crate::sql_migration::conversation::{fresh, is_conversation, is_exchange};
use crate::sql_migration::error::MigrationErrorView;
use crate::sql_migration::migration::{id_repeated, BundleView};
use crate::sql_migration::postgres::statements_verdict;
use crate::sql_migration::run::{RunView, SettingsView, StepView};
use vstd::prelude::*;

verus! {

/// The runs of the bundles under way, one for each batch.
pub open spec fn runs_of(batches: Seq<BatchView>) -> Seq<RunView> {
    batches.map_values(|batch: BatchView| batch.run)
}

/// Reply `i` answers the command that batch `i` awaits, and leads on.
pub open spec fn is_batch_exchange(
    batches: Seq<BatchView>,
    replies: Seq<Reply>,
    outcome: Result<Seq<AppliedView>, MigrationErrorView>,
    i: int,
) -> bool {
    let batch = batches[i];
    let next = if i + 1 < batches.len() {
        BatchStepView::Next(batches[i + 1])
    } else {
        BatchStepView::Over(outcome)
    };
    &&& batch.run.todo.len() > 0
    &&& answers(replies[i], batch.run.todo[0].action)
    &&& exists|step: StepView| #[trigger] batch.run.steps_to(replies[i], step) && batch.goes_on(step, next)
}

/// A batch from its first command to its outcome.
pub open spec fn is_batch_conversation(
    batches: Seq<BatchView>,
    replies: Seq<Reply>,
    outcome: Result<Seq<AppliedView>, MigrationErrorView>,
) -> bool {
    &&& 0 < batches.len() == replies.len()
    &&& forall|i: int|
        0 <= i < batches.len() ==> #[trigger] is_batch_exchange(batches, replies, outcome, i)
}

/// Bundle `k` was run from command `from` up to command `end`, with this result.
pub open spec fn is_turn(
    batches: Seq<BatchView>,
    replies: Seq<Reply>,
    settings: SettingsView,
    bundles: Seq<BundleView>,
    from: int,
    k: int,
    end: int,
    result: Result<Seq<AppliedView>, MigrationErrorView>,
) -> bool {
    &&& 0 <= from < end <= batches.len()
    &&& batches[from].run == fresh(settings, bundles[k])
    &&& is_conversation(
        runs_of(batches).subrange(from, end),
        replies.subrange(from, end),
        result,
    )
}

/// From command `from` on the bundles from `k` on are run in turn, each as if it were
/// alone. The first that fails ends the batch with its error; where none does, the
/// report is `applied` and then what each bundle reported, in order.
pub open spec fn in_turn(
    batches: Seq<BatchView>,
    replies: Seq<Reply>,
    outcome: Result<Seq<AppliedView>, MigrationErrorView>,
    settings: SettingsView,
    bundles: Seq<BundleView>,
    from: int,
    k: int,
    applied: Seq<AppliedView>,
) -> bool
    decreases bundles.len() - k,
{
    exists|end: int, result: Result<Seq<AppliedView>, MigrationErrorView>| #[trigger]
        is_turn(batches, replies, settings, bundles, from, k, end, result) && match result {
            Err(fault) => end == batches.len() && outcome == Err::<
                Seq<AppliedView>,
                MigrationErrorView,
            >(fault),
            Ok(rows) => {
                &&& k + 1 >= bundles.len() ==> end == batches.len() && outcome == Ok::<
                    Seq<AppliedView>,
                    MigrationErrorView,
                >(applied + rows)
                &&& k + 1 < bundles.len() ==> if end < batches.len() {
                    in_turn(batches, replies, outcome, settings, bundles, end, k + 1, applied + rows)
                } else {
                    settings.dialect == Dialect::Postgres && outcome is Err && statements_verdict(
                        bundles[k + 1],
                        Err(outcome->Err_0),
                    )
                }
            },
        }
}

/// The run under way goes on with reply `j`.
spec fn moves_on(batches: Seq<BatchView>, replies: Seq<Reply>, j: int) -> bool {
    batches[j].run.steps_to(replies[j], StepView::Next(batches[j + 1].run))
}

/// Bundle `k` is under way, and those before it have reported `applied`.
spec fn is_under_way(
    batch: BatchView,
    settings: SettingsView,
    bundles: Seq<BundleView>,
    k: int,
    applied: Seq<AppliedView>,
) -> bool {
    &&& batch.settings == settings
    &&& batch.bundles == bundles
    &&& batch.index == k
    &&& batch.applied == applied
}

proof fn lemma_conversation(
    batches: Seq<BatchView>,
    replies: Seq<Reply>,
    outcome: Result<Seq<AppliedView>, MigrationErrorView>,
    c: int,
    i: int,
    result: Result<Seq<AppliedView>, MigrationErrorView>,
)
    requires
        is_batch_conversation(batches, replies, outcome),
        0 <= c <= i < batches.len(),
        forall|j: int| c <= j < i ==> #[trigger] moves_on(batches, replies, j),
        batches[i].run.steps_to(replies[i], StepView::Over(result)),
    ensures
        is_conversation(
            runs_of(batches).subrange(c, i + 1),
            replies.subrange(c, i + 1),
            result,
        ),
{
    let runs = runs_of(batches).subrange(c, i + 1);
    let answered = replies.subrange(c, i + 1);
    assert forall|j: int| 0 <= j < runs.len() implies #[trigger] is_exchange(
        runs,
        answered,
        result,
        j,
    ) by {
        assert(is_batch_exchange(batches, replies, outcome, c + j));
        assert(runs[j] == batches[c + j].run);
        assert(answered[j] == replies[c + j]);
        if c + j < i {
            assert(runs[j + 1] == batches[c + j + 1].run);
            assert(moves_on(batches, replies, c + j));
        }
    }
}

proof fn lemma_turn(
    batches: Seq<BatchView>,
    replies: Seq<Reply>,
    outcome: Result<Seq<AppliedView>, MigrationErrorView>,
    settings: SettingsView,
    bundles: Seq<BundleView>,
    c: int,
    i: int,
    k: int,
    applied: Seq<AppliedView>,
)
    requires
        is_batch_conversation(batches, replies, outcome),
        0 <= c <= i < batches.len(),
        0 <= k < bundles.len(),
        batches[c].run == fresh(settings, bundles[k]),
        is_under_way(batches[i], settings, bundles, k, applied),
        forall|j: int| c <= j < i ==> #[trigger] moves_on(batches, replies, j),
    ensures
        in_turn(batches, replies, outcome, settings, bundles, c, k, applied),
    decreases batches.len() - i,
{
    assert(is_batch_exchange(batches, replies, outcome, i));
    let batch = batches[i];
    let next = if i + 1 < batches.len() {
        BatchStepView::Next(batches[i + 1])
    } else {
        BatchStepView::Over(outcome)
    };
    let step = choose|step: StepView| #[trigger]
        batch.run.steps_to(replies[i], step) && batch.goes_on(step, next);
    match step {
        StepView::Next(run) => {
            assert(i + 1 < batches.len());
            assert(batches[i + 1].run == run);
            assert(moves_on(batches, replies, i));
            lemma_turn(batches, replies, outcome, settings, bundles, c, i + 1, k, applied);
        },
        StepView::Over(result) => {
            let end = i + 1;
            lemma_conversation(batches, replies, outcome, c, i, result);
            assert(is_turn(batches, replies, settings, bundles, c, k, end, result));
            if let Ok(rows) = result {
                if k + 1 < bundles.len() && end < batches.len() {
                    assert(batches[end].run == fresh(settings, bundles[k + 1]));
                    lemma_turn(
                        batches,
                        replies,
                        outcome,
                        settings,
                        bundles,
                        end,
                        end,
                        k + 1,
                        applied + rows,
                    );
                }
            }
        },
    }
}

/// A batch is its bundles in turn. A batch with a repeated bundle id is refused before
/// anything is sent; an empty one is over at once. Any other starts with the first
/// bundle, runs each bundle as if it were alone, in the order in which they are given,
/// and ends with the first failure, or with all that the bundles reported. On PostgreSQL a bundle with a
/// migration of several statements ends the batch when its turn comes.
pub proof fn batches_run_their_bundles_in_turn(
    batches: Seq<BatchView>,
    replies: Seq<Reply>,
    outcome: Result<Seq<AppliedView>, MigrationErrorView>,
    settings: SettingsView,
    bundles: Seq<BundleView>,
)
    requires
        is_batch_conversation(batches, replies, outcome),
        batch_starts(settings, bundles, BatchStepView::Next(batches[0])),
    ensures
        bundles.len() > 0,
        forall|i: int, j: int|
            0 <= i < j < bundles.len() ==> (#[trigger] bundles[i]).bundle_id != (
            #[trigger] bundles[j]).bundle_id,
        in_turn(batches, replies, outcome, settings, bundles, 0, 0, Seq::empty()),
{
    assert forall|i: int, j: int| 0 <= i < j < bundles.len() implies (
    #[trigger] bundles[i]).bundle_id != (#[trigger] bundles[j]).bundle_id by {
        assert(!id_repeated(bundles, j));
    }
    lemma_turn(batches, replies, outcome, settings, bundles, 0, 0, 0, Seq::empty());
}

} // verus!
