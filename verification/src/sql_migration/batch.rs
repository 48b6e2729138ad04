//! Several bundles, one run after the other in registration order.
use crate::scoped_migration::migration::Dialect;
use crate::scoped_migration::plan::AppliedMigration;
use crate::scoped_migration::run::{answers, applied_views, AppliedView, Command, Reply};
use crate::sql_migration::error::{MigrationError, MigrationErrorView};
use crate::sql_migration::migration::{
    bundle_views, check_ids_are_distinct, id_repeated, BundleView, MigrationBundle,
};
use crate::sql_migration::postgres::{check_statements, statements_verdict};
use crate::sql_migration::run::{
    BundleRun, RunView, RunnerSettings, SettingsView, Step, StepView,
};
use vstd::prelude::*;

verus! {

/// A run of several bundles: which of them is under way, and what the finished
/// ones have applied.
#[derive(Debug)]
pub struct BatchRun<'a> {
    settings: RunnerSettings,
    bundles: &'a [MigrationBundle],
    index: usize,
    run: BundleRun<'a>,
    applied: Vec<AppliedMigration>,
}

/// A [`BatchRun`] by its views.
pub struct BatchView {
    pub settings: SettingsView,
    pub bundles: Seq<BundleView>,
    pub index: nat,
    pub run: RunView,
    pub applied: Seq<AppliedView>,
}

impl<'a> View for BatchRun<'a> {
    type V = BatchView;

    closed spec fn view(&self) -> BatchView {
        BatchView {
            settings: self.settings@,
            bundles: bundle_views(self.bundles@),
            index: self.index as nat,
            run: self.run@,
            applied: applied_views(self.applied@),
        }
    }
}

/// What a run of several bundles does next: await the answer to another command, or
/// end.
#[derive(Debug)]
pub enum BatchStep<'a> {
    Next(BatchRun<'a>),
    Over(Result<Vec<AppliedMigration>, MigrationError>),
}

/// A [`BatchStep`] by its views.
pub enum BatchStepView {
    Next(BatchView),
    Over(Result<Seq<AppliedView>, MigrationErrorView>),
}

impl<'a> View for BatchStep<'a> {
    type V = BatchStepView;

    open spec fn view(&self) -> BatchStepView {
        match *self {
            BatchStep::Next(batch) => BatchStepView::Next(batch@),
            BatchStep::Over(Ok(applied)) => BatchStepView::Over(Ok(applied_views(applied@))),
            BatchStep::Over(Err(error)) => BatchStepView::Over(Err(error@)),
        }
    }
}

/// `step` starts bundle `index`: its run, or on PostgreSQL the refusal of a
/// migration that holds several statements.
pub open spec fn bundle_starts(
    settings: SettingsView,
    bundles: Seq<BundleView>,
    index: nat,
    applied: Seq<AppliedView>,
    step: BatchStepView,
) -> bool {
    let bundle = bundles[index as int];
    match step {
        BatchStepView::Next(batch) => {
            &&& settings.dialect == Dialect::Postgres ==> statements_verdict(bundle, Ok(()))
            &&& batch == (BatchView {
                settings,
                bundles,
                index,
                run: RunView {
                    settings,
                    bundle,
                    todo: settings.run_program(bundle.bundle_id),
                    applied: Seq::empty(),
                },
                applied,
            })
        },
        BatchStepView::Over(Err(fault)) => settings.dialect == Dialect::Postgres
            && statements_verdict(bundle, Err(fault)),
        BatchStepView::Over(Ok(rows)) => false,
    }
}

/// `step` starts a batch: a duplicate bundle id is refused before anything is run;
/// otherwise it starts the first bundle, or ends where there is none.
pub open spec fn batch_starts(
    settings: SettingsView,
    bundles: Seq<BundleView>,
    step: BatchStepView,
) -> bool {
    ||| exists|i: int|
        0 <= i < bundles.len() && #[trigger] id_repeated(bundles, i) && (forall|j: int|
            0 <= j < i ==> !#[trigger] id_repeated(bundles, j)) && step == BatchStepView::Over(
            Err(MigrationErrorView::DuplicateBundle(bundles[i].bundle_id)),
        )
    ||| (forall|i: int| 0 <= i < bundles.len() ==> !#[trigger] id_repeated(bundles, i)) && (
    if bundles.len() == 0 {
        step == BatchStepView::Over(Ok(Seq::empty()))
    } else {
        bundle_starts(settings, bundles, 0, Seq::empty(), step)
    })
}

impl BatchView {
    /// `next` is what a step of the bundle under way is to the batch.
    pub open spec fn goes_on(self, step: StepView, next: BatchStepView) -> bool {
        match step {
            StepView::Next(run) => next == BatchStepView::Next(BatchView { run, ..self }),
            StepView::Over(Err(fault)) => next == BatchStepView::Over(Err(fault)),
            StepView::Over(Ok(rows)) => if self.index + 1 >= self.bundles.len() {
                next == BatchStepView::Over(Ok(self.applied + rows))
            } else {
                bundle_starts(
                    self.settings,
                    self.bundles,
                    self.index + 1,
                    self.applied + rows,
                    next,
                )
            },
        }
    }
}

impl RunnerSettings {
    /// Start bundle `index` of a batch.
    fn start<'a>(
        &self,
        bundles: &'a [MigrationBundle],
        index: usize,
        applied: Vec<AppliedMigration>,
    ) -> (step: BatchStep<'a>)
        requires
            index < bundles@.len(),
        ensures
            bundle_starts(
                self@,
                bundle_views(bundles@),
                index as nat,
                applied_views(applied@),
                step@,
            ),
    {
        let bundle = &bundles[index];
        assert(bundle_views(bundles@)[index as int] == bundle@);
        if self.dialect == Dialect::Postgres {
            if let Err(error) = check_statements(bundle) {
                return BatchStep::Over(Err(error));
            }
        }
        let run = self.run(bundle);
        BatchStep::Next(
            BatchRun { settings: self.duplicate(), bundles, index, run, applied },
        )
    }

    /// Start to run bundles in registration order.
    pub(crate) fn run_bundles<'a>(&self, bundles: &'a [MigrationBundle]) -> (step: BatchStep<'a>)
        ensures
            batch_starts(self@, bundle_views(bundles@), step@),
    {
        let applied: Vec<AppliedMigration> = Vec::new();
        assert(applied_views(applied@) =~= Seq::empty());
        match check_ids_are_distinct(bundles) {
            Err(error) => BatchStep::Over(Err(error)),
            Ok(()) => {
                if bundles.len() == 0 {
                    BatchStep::Over(Ok(applied))
                } else {
                    self.start(bundles, 0, applied)
                }
            },
        }
    }
}

impl<'a> BatchRun<'a> {
    #[verifier::type_invariant]
    spec fn is_under_way(self) -> bool {
        self.index < self.bundles@.len()
    }

    /// The command whose answer the batch awaits.
    pub fn command(&self) -> (command: &Command)
        ensures
            self@.run.todo.len() > 0,
            command@ == self@.run.todo[0],
    {
        self.run.command()
    }

    /// What the batch does on the answer to the command that it awaits.
    pub fn step(self, reply: Reply) -> (next: BatchStep<'a>)
        requires
            answers(reply, self@.run.todo[0].action),
        ensures
            exists|step: StepView| #[trigger]
                self@.run.steps_to(reply, step) && self@.goes_on(step, next@),
    {
        proof {
            use_type_invariant(&self);
        }
        let BatchRun { settings, bundles, index, run, applied } = self;
        let step = run.step(reply);
        let ghost outcome = step@;
        assert(self@.run.steps_to(reply, outcome));
        match step {
            Step::Next(run) => BatchStep::Next(
                BatchRun { settings, bundles, index, run, applied },
            ),
            Step::Over(Err(error)) => BatchStep::Over(Err(error)),
            Step::Over(Ok(rows)) => {
                let mut rows = rows;
                let mut applied = applied;
                let ghost before = applied_views(applied@);
                let ghost more = applied_views(rows@);
                applied.append(&mut rows);
                assert(applied_views(applied@) =~= before + more);
                let count: usize = bundles.len();
                let following: usize = index + 1;
                if following >= count {
                    BatchStep::Over(Ok(applied))
                } else {
                    settings.start(bundles, following, applied)
                }
            },
        }
    }
}

} // verus!
