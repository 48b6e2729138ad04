//! Several bundles, one run after the other in registration order.
use crate::scoped_migration::bundle::{
    bundle_views, check_id_is_new, check_ids_are_distinct, id_repeated, BundleView,
    MigrationBundle,
};
use crate::scoped_migration::error::{MigrationError, MigrationErrorView};
use crate::scoped_migration::plan::AppliedMigration;
use crate::scoped_migration::run::{
    answers, applied_views, AppliedView, Backend, BundleRun, Command, CommandView, Goal, Reply, RunView,
    RunnerSettings, SettingsView, Step, StepView,
};
use vstd::prelude::*;

verus! {

/// A run of several bundles: which of them is under way, and what the finished
/// ones have applied.
#[derive(Debug)]
pub struct BatchRun<'a> {
    settings: RunnerSettings,
    bundles: &'a [MigrationBundle],
    index: usize,
    goal: Goal,
    run: BundleRun<'a>,
    applied: Vec<AppliedMigration>,
}

/// A [`BatchRun`] by its views.
pub struct BatchView {
    pub settings: SettingsView,
    pub bundles: Seq<BundleView>,
    pub index: nat,
    pub goal: Goal,
    pub run: RunView,
    pub applied: Seq<AppliedView>,
}

impl<'a> View for BatchRun<'a> {
    type V = BatchView;

    closed spec fn view(&self) -> BatchView {
        BatchView {
            settings: self.settings@,
            bundles: bundle_views(self.bundles@),
            index: self.index as nat,
            goal: self.goal,
            run: self.run@,
            applied: applied_views(self.applied@),
        }
    }
}

/// What a run of several bundles does next: await the answer to another command, or
/// end.
#[derive(Debug)]
pub enum BatchStep<'a> {
    Next(BatchRun<'a>),
    Over(Result<Vec<AppliedMigration>, MigrationError>),
}

/// A [`BatchStep`] by its views.
pub enum BatchStepView {
    Next(BatchView),
    Over(Result<Seq<AppliedView>, MigrationErrorView>),
}

impl<'a> View for BatchStep<'a> {
    type V = BatchStepView;

    open spec fn view(&self) -> BatchStepView {
        match *self {
            BatchStep::Next(batch) => BatchStepView::Next(batch@),
            BatchStep::Over(Ok(applied)) => BatchStepView::Over(Ok(applied_views(applied@))),
            BatchStep::Over(Err(error)) => BatchStepView::Over(Err(error@)),
        }
    }
}

impl SettingsView {
    /// The commands of a run with this goal.
    pub open spec fn program(self, goal: Goal, bundle_id: Seq<char>) -> Seq<CommandView> {
        match goal {
            Goal::Apply => self.run_program(bundle_id),
            Goal::Verify => self.verify_program(bundle_id),
        }
    }

    /// The batch at the start of bundle `index`.
    pub open spec fn batch_at(
        self,
        bundles: Seq<BundleView>,
        goal: Goal,
        index: nat,
        applied: Seq<AppliedView>,
    ) -> BatchView {
        BatchView {
            settings: self,
            bundles,
            index,
            goal,
            run: RunView {
                settings: self,
                bundle: bundles[index as int],
                todo: self.program(goal, bundles[index as int].bundle_id),
                applied: Seq::empty(),
            },
            applied,
        }
    }
}

/// What is said of a bundle whose id came before.
pub open spec fn repeated(bundles: Seq<BundleView>, i: int) -> BatchStepView {
    BatchStepView::Over(Err(MigrationErrorView::DuplicateBundle(bundles[i].bundle_id)))
}

/// How a batch starts: with the first bundle, or at its end where there is none.
pub open spec fn first_step(settings: SettingsView, bundles: Seq<BundleView>, goal: Goal) -> BatchStepView {
    if bundles.len() == 0 {
        BatchStepView::Over(Ok(Seq::empty()))
    } else {
        BatchStepView::Next(settings.batch_at(bundles, goal, 0, Seq::empty()))
    }
}

/// `step` starts to apply a batch: a duplicate bundle id is refused before anything
/// is run.
pub open spec fn batch_starts(
    settings: SettingsView,
    bundles: Seq<BundleView>,
    step: BatchStepView,
) -> bool {
    ||| (forall|i: int| 0 <= i < bundles.len() ==> !#[trigger] id_repeated(bundles, i)) && step
        == first_step(settings, bundles, Goal::Apply)
    ||| exists|i: int|
        0 <= i < bundles.len() && #[trigger] id_repeated(bundles, i) && (forall|j: int|
            0 <= j < i ==> !#[trigger] id_repeated(bundles, j)) && step == repeated(bundles, i)
}

impl BatchView {
    /// How the batch goes on when the bundle under way is finished. A batch that
    /// verifies looks at the id of each bundle when its turn comes.
    pub open spec fn bundle_done(self, rows: Seq<AppliedView>) -> BatchStepView {
        let applied = self.applied + rows;
        let next = self.index + 1;
        if next >= self.bundles.len() {
            BatchStepView::Over(Ok(applied))
        } else if self.goal == Goal::Verify && id_repeated(self.bundles, next as int) {
            repeated(self.bundles, next as int)
        } else {
            BatchStepView::Next(
                self.settings.batch_at(self.bundles, self.goal, next, applied),
            )
        }
    }

    /// What a step of the bundle under way is to the batch.
    pub open spec fn after(self, step: StepView) -> BatchStepView {
        match step {
            StepView::Next(run) => BatchStepView::Next(BatchView { run, ..self }),
            StepView::Over(Err(fault)) => BatchStepView::Over(Err(fault)),
            StepView::Over(Ok(rows)) => self.bundle_done(rows),
        }
    }
}

impl RunnerSettings {
    fn start<'a>(&self, bundle: &'a MigrationBundle, goal: Goal) -> (run: BundleRun<'a>)
        requires
            goal == Goal::Verify ==> self@.backend == Backend::Postgres,
        ensures
            run@ == (RunView {
                settings: self@,
                bundle: bundle@,
                todo: self@.program(goal, bundle@.bundle_id),
                applied: Seq::empty(),
            }),
    {
        match goal {
            Goal::Apply => self.run(bundle),
            Goal::Verify => self.verify(bundle),
        }
    }

    fn start_batch<'a>(&self, bundles: &'a [MigrationBundle], goal: Goal) -> (step: BatchStep<'a>)
        requires
            goal == Goal::Verify ==> self@.backend == Backend::Postgres,
        ensures
            step@ == first_step(self@, bundle_views(bundles@), goal),
    {
        let applied: Vec<AppliedMigration> = Vec::new();
        assert(applied_views(applied@) =~= Seq::empty());
        if bundles.len() == 0 {
            return BatchStep::Over(Ok(applied));
        }
        assert(bundle_views(bundles@)[0] == bundles@[0]@);
        let run = self.start(&bundles[0], goal);
        BatchStep::Next(
            BatchRun { settings: self.duplicate(), bundles, index: 0, goal, run, applied },
        )
    }

    /// Start to run bundles in registration order. A duplicate bundle id is refused
    /// before anything is run.
    pub fn run_bundles<'a>(&self, bundles: &'a [MigrationBundle]) -> (step: BatchStep<'a>)
        ensures
            batch_starts(self@, bundle_views(bundles@), step@),
    {
        match check_ids_are_distinct(bundles) {
            Err(error) => BatchStep::Over(Err(error)),
            Ok(()) => self.start_batch(bundles, Goal::Apply),
        }
    }

    /// Start to verify several independent bundles without applying any DDL. Only
    /// PostgreSQL databases are checked.
    pub fn verify_bundles<'a>(&self, bundles: &'a [MigrationBundle]) -> (step: BatchStep<'a>)
        requires
            self@.backend == Backend::Postgres,
        ensures
            step@ == first_step(self@, bundle_views(bundles@), Goal::Verify),
    {
        self.start_batch(bundles, Goal::Verify)
    }
}

impl<'a> BatchRun<'a> {
    #[verifier::type_invariant]
    spec fn is_under_way(self) -> bool {
        &&& self.index < self.bundles@.len()
        &&& self.goal == Goal::Verify ==> self.settings@.backend == Backend::Postgres
    }

    /// The command whose answer the batch awaits.
    pub fn command(&self) -> (command: &Command)
        ensures
            self@.run.todo.len() > 0,
            command@ == self@.run.todo[0],
    {
        self.run.command()
    }

    /// What the batch does on the answer to the command that it awaits.
    pub fn step(self, reply: Reply) -> (next: BatchStep<'a>)
        requires
            answers(reply, self@.run.todo[0].action),
        ensures
            exists|step: StepView| #[trigger]
                self@.run.steps_to(reply, step) && next@ == self@.after(step),
    {
        proof {
            use_type_invariant(&self);
        }
        let BatchRun { settings, bundles, index, goal, run, applied } = self;
        let step = run.step(reply);
        let ghost outcome = step@;
        assert(self@.run.steps_to(reply, outcome));
        match step {
            Step::Next(run) => BatchStep::Next(
                BatchRun { settings, bundles, index, goal, run, applied },
            ),
            Step::Over(Err(error)) => BatchStep::Over(Err(error)),
            Step::Over(Ok(rows)) => {
                let mut rows = rows;
                let mut applied = applied;
                let ghost before = applied_views(applied@);
                let ghost more = applied_views(rows@);
                applied.append(&mut rows);
                assert(applied_views(applied@) =~= before + more);
                let count: usize = bundles.len();
                let following: usize = index + 1;
                if following >= count {
                    return BatchStep::Over(Ok(applied));
                }
                match goal {
                    Goal::Verify => {
                        if let Err(error) = check_id_is_new(bundles, following) {
                            return BatchStep::Over(Err(error));
                        }
                    },
                    Goal::Apply => {},
                }
                assert(bundle_views(bundles@)[following as int] == bundles@[following as int]@);
                let run = settings.start(&bundles[following], goal);
                BatchStep::Next(
                    BatchRun { settings, bundles, index: following, goal, run, applied },
                )
            },
        }
    }
}

} // verus!
