//! The benchmark run.
//!
//! The runner decides and its caller acts. The runner names the next action:
//! load the model, run one iteration, or stop. The caller performs it and
//! hands back what happened as an event: the model was loaded or not, the
//! iteration took so long or failed. The runner never sees the inference
//! engine, the clock or the console.

use crate::progress::{advanced, finished, fresh, ProgressReporter, ProgressView};
use crate::shape::{is_shape_spec, ShapeEntryView, ShapeSpec};
use crate::stats::{
    durations, lemma_durations_push, lemma_single_sample_summary, summarize, summary_of,
    EmptySampleSetError, Summary, TimingSample,
};
use vstd::prelude::*;

verus! {

/// Why a run produced no result, as the model of the run has it.
pub enum BenchmarkErrorView {
    ModelLoad { cause: Seq<char> },
    NoIterations,
    Inference { cause: Seq<char>, iteration: nat, completed: nat },
    EmptySampleSet,
}

/// Why a run produced no result.
#[derive(Clone, Debug, PartialEq, Eq)]
pub enum BenchmarkError {
    /// The model file is missing, unreadable or not a model.
    ModelLoad { cause: String },
    /// A run of no iterations was asked for.
    NoIterations,
    /// The engine failed in the iteration of index `iteration`, after
    /// `completed` iterations had succeeded.
    Inference { cause: String, iteration: usize, completed: usize },
    /// A summary of no samples was asked for.
    EmptySampleSet,
}

impl View for BenchmarkError {
    type V = BenchmarkErrorView;

    open spec fn view(&self) -> BenchmarkErrorView {
        match *self {
            BenchmarkError::ModelLoad { cause } => BenchmarkErrorView::ModelLoad { cause: cause@ },
            BenchmarkError::NoIterations => BenchmarkErrorView::NoIterations,
            BenchmarkError::Inference { cause, iteration, completed } => BenchmarkErrorView::Inference {
                cause: cause@,
                iteration: iteration as nat,
                completed: completed as nat,
            },
            BenchmarkError::EmptySampleSet => BenchmarkErrorView::EmptySampleSet,
        }
    }
}

impl From<EmptySampleSetError> for BenchmarkError {
    fn from(error: EmptySampleSetError) -> (converted: BenchmarkError) {
        BenchmarkError::EmptySampleSet
    }
}

impl vstd::std_specs::convert::FromSpecImpl<EmptySampleSetError> for BenchmarkError {
    open spec fn obeys_from_spec() -> bool {
        true
    }

    open spec fn from_spec(error: EmptySampleSetError) -> BenchmarkError {
        BenchmarkError::EmptySampleSet
    }
}

/// The samples of a completed run in the order of its iterations, with their
/// first, last and mean.
#[derive(Debug)]
pub struct BenchmarkResult {
    samples: Vec<TimingSample>,
    summary: Summary,
}

impl View for BenchmarkResult {
    type V = Seq<nat>;

    /// The durations of the samples, in nanoseconds.
    closed spec fn view(&self) -> Seq<nat> {
        durations(self.samples@)
    }
}

impl BenchmarkResult {
    #[verifier::type_invariant]
    spec fn valid(self) -> bool {
        &&& self.samples@.len() >= 1
        &&& self.summary@ == summary_of(durations(self.samples@))
    }

    /// The result of a run with the given samples, which fails when there is
    /// none. No sample is left out of the mean.
    pub fn from_samples(samples: Vec<TimingSample>) -> (result: Result<
        BenchmarkResult,
        EmptySampleSetError,
    >)
        ensures
            samples.len() == 0 <==> result is Err,
            result matches Ok(r) ==> r@ == durations(samples@),
    {
        match summarize(&samples) {
            Ok(summary) => Ok(BenchmarkResult { samples, summary }),
            Err(e) => Err(e),
        }
    }

    /// The samples in the order of the iterations.
    pub fn samples(&self) -> (samples: &Vec<TimingSample>)
        ensures
            durations(samples@) == self@,
            samples.len() >= 1,
    {
        proof {
            use_type_invariant(self);
        }
        &self.samples
    }

    /// The number of samples, which is at least one.
    pub fn len(&self) -> (n: usize)
        ensures
            n == self@.len(),
            n >= 1,
    {
        proof {
            use_type_invariant(self);
        }
        self.samples.len()
    }

    /// First, last and mean of the samples.
    pub fn summary(&self) -> (summary: Summary)
        ensures
            self@.len() >= 1,
            summary@ == summary_of(self@),
    {
        proof {
            use_type_invariant(self);
        }
        self.summary
    }

    /// The sample of the first iteration.
    pub fn first(&self) -> (sample: TimingSample)
        ensures
            self@.len() >= 1,
            sample@ == self@.first(),
    {
        proof {
            use_type_invariant(self);
        }
        self.summary.first
    }

    /// The sample of the last iteration.
    pub fn last(&self) -> (sample: TimingSample)
        ensures
            self@.len() >= 1,
            sample@ == self@.last(),
    {
        proof {
            use_type_invariant(self);
        }
        self.summary.last
    }

    /// The mean of all samples.
    pub fn mean(&self) -> (sample: TimingSample)
        ensures
            self@.len() >= 1,
            sample@ == crate::stats::mean(self@),
    {
        proof {
            use_type_invariant(self);
        }
        self.summary.mean
    }
}

/// What the caller reports to the runner, as the model of the run has it.
pub enum RunnerEventView {
    ModelLoaded,
    ModelLoadFailed { cause: Seq<char> },
    IterationSucceeded { elapsed: nat },
    IterationFailed { cause: Seq<char> },
}

/// What the caller reports to the runner.
#[derive(Clone, Debug, PartialEq, Eq)]
pub enum RunnerEvent {
    /// The engine has opened the model.
    ModelLoaded,
    /// The engine could not open the model.
    ModelLoadFailed { cause: String },
    /// The engine ran the model once, and the call took `elapsed`.
    IterationSucceeded { elapsed: TimingSample },
    /// The engine failed to run the model.
    IterationFailed { cause: String },
}

impl View for RunnerEvent {
    type V = RunnerEventView;

    open spec fn view(&self) -> RunnerEventView {
        match *self {
            RunnerEvent::ModelLoaded => RunnerEventView::ModelLoaded,
            RunnerEvent::ModelLoadFailed { cause } => RunnerEventView::ModelLoadFailed {
                cause: cause@,
            },
            RunnerEvent::IterationSucceeded { elapsed } => RunnerEventView::IterationSucceeded {
                elapsed: elapsed@,
            },
            RunnerEvent::IterationFailed { cause } => RunnerEventView::IterationFailed {
                cause: cause@,
            },
        }
    }
}

/// What the runner asks its caller to do next.
#[derive(Clone, Copy, Debug, PartialEq, Eq, Structural)]
pub enum RunnerAction {
    /// Open the model file with the engine.
    LoadModel,
    /// Build one fresh zero-filled tensor for each entry of the shape
    /// specification, run the engine on them and time that call alone.
    RunIteration { index: usize },
    /// Do nothing more: the outcome of the run is there.
    Stop,
}

/// Where a run stands.
pub enum PhaseView {
    /// The model is not loaded yet.
    Loading,
    /// The model is loaded, and the iterations whose samples are listed are
    /// done.
    Running { samples: Seq<nat>, progress: ProgressView },
    /// The run is over. Its outcome is the sequence of all samples, or the
    /// reason why there is none.
    Finished { outcome: Result<Seq<nat>, BenchmarkErrorView>, reporter: Option<ProgressView> },
}

/// The model of a run.
pub struct RunnerView {
    pub model_path: Seq<char>,
    pub shape_spec: Seq<ShapeEntryView>,
    pub iteration_count: nat,
    pub phase: PhaseView,
}

/// The run before anything has happened.
pub open spec fn initial(
    model_path: Seq<char>,
    iteration_count: nat,
    shape_spec: Seq<ShapeEntryView>,
) -> RunnerView {
    RunnerView { model_path, shape_spec, iteration_count, phase: PhaseView::Loading }
}

/// The action that a run waits for.
pub open spec fn pending_action(s: RunnerView) -> RunnerAction {
    match s.phase {
        PhaseView::Loading => RunnerAction::LoadModel,
        PhaseView::Running { samples, .. } => RunnerAction::RunIteration {
            index: samples.len() as usize,
        },
        PhaseView::Finished { .. } => RunnerAction::Stop,
    }
}

/// The phase that follows on an event.
///
/// While the model loads, success starts the iterations with a fresh
/// progress reporter, and failure ends the run. While the iterations run, a
/// success appends its sample and advances the reporter, and the last one
/// ends the run with all samples; a failure ends the run at once with the
/// number of iterations completed. Whatever ends the iterations finishes the
/// reporter. An event that does not answer the pending action changes
/// nothing, and neither does any event after the end.
pub open spec fn next_phase(
    iteration_count: nat,
    phase: PhaseView,
    event: RunnerEventView,
) -> PhaseView {
    match phase {
        PhaseView::Loading => match event {
            RunnerEventView::ModelLoaded => PhaseView::Running {
                samples: Seq::empty(),
                progress: fresh(iteration_count),
            },
            RunnerEventView::ModelLoadFailed { cause } => PhaseView::Finished {
                outcome: Err(BenchmarkErrorView::ModelLoad { cause }),
                reporter: None,
            },
            _ => phase,
        },
        PhaseView::Running { samples, progress } => match event {
            RunnerEventView::IterationSucceeded { elapsed } => if samples.len() + 1
                >= iteration_count {
                PhaseView::Finished {
                    outcome: Ok(samples.push(elapsed)),
                    reporter: Some(finished(advanced(progress))),
                }
            } else {
                PhaseView::Running { samples: samples.push(elapsed), progress: advanced(progress) }
            },
            RunnerEventView::IterationFailed { cause } => PhaseView::Finished {
                outcome: Err(
                    BenchmarkErrorView::Inference {
                        cause,
                        iteration: samples.len(),
                        completed: samples.len(),
                    },
                ),
                reporter: Some(finished(progress)),
            },
            _ => phase,
        },
        PhaseView::Finished { .. } => phase,
    }
}

/// The run after an event.
pub open spec fn next(s: RunnerView, event: RunnerEventView) -> RunnerView {
    RunnerView { phase: next_phase(s.iteration_count, s.phase, event), ..s }
}

/// The run after a sequence of events, taken in order.
pub open spec fn after(s: RunnerView, events: Seq<RunnerEventView>) -> RunnerView
    decreases events.len(),
{
    if events.len() == 0 {
        s
    } else {
        next(after(s, events.drop_last()), events.last())
    }
}

/// The events of iterations that succeed one after the other with the given
/// durations.
pub open spec fn successes(d: Seq<nat>) -> Seq<RunnerEventView> {
    Seq::new(d.len(), |i: int| RunnerEventView::IterationSucceeded { elapsed: d[i] })
}

/// What holds of a run at every moment: it has at least one iteration and a
/// shape specification; while it iterates, fewer samples than iterations
/// are there and the reporter shows their number; a run that ended well holds
/// one sample for each iteration; a run that failed in an iteration holds the
/// number of those completed before; and once the iterations have ended the
/// reporter is finished.
pub open spec fn is_valid(s: RunnerView) -> bool {
    &&& 1 <= s.iteration_count
    &&& is_shape_spec(s.shape_spec)
    &&& match s.phase {
        PhaseView::Loading => true,
        PhaseView::Running { samples, progress } => {
            &&& samples.len() < s.iteration_count
            &&& progress == ProgressView {
                total: s.iteration_count,
                position: samples.len(),
                finished: false,
            }
        },
        PhaseView::Finished { outcome, reporter } => match outcome {
            Ok(samples) => {
                &&& samples.len() == s.iteration_count
                &&& reporter == Some(
                    ProgressView {
                        total: s.iteration_count,
                        position: s.iteration_count,
                        finished: true,
                    },
                )
            },
            Err(BenchmarkErrorView::ModelLoad { .. }) => reporter is None,
            Err(BenchmarkErrorView::Inference { iteration, completed, .. }) => {
                &&& iteration == completed
                &&& completed < s.iteration_count
                &&& reporter == Some(
                    ProgressView { total: s.iteration_count, position: completed, finished: true },
                )
            },
            Err(_) => false,
        },
    }
}

/// A run starts valid and stays valid, whatever its caller reports.
pub proof fn lemma_valid_always(s: RunnerView, events: Seq<RunnerEventView>)
    requires
        is_valid(s),
    ensures
        is_valid(after(s, events)),
        after(s, events).iteration_count == s.iteration_count,
        after(s, events).model_path == s.model_path,
        after(s, events).shape_spec == s.shape_spec,
    decreases events.len(),
{
    if events.len() > 0 {
        lemma_valid_always(s, events.drop_last());
    }
}

/// A run that has ended stays as it is and asks for nothing more.
pub proof fn lemma_finished_is_final(s: RunnerView, events: Seq<RunnerEventView>)
    requires
        s.phase is Finished,
    ensures
        after(s, events) == s,
        pending_action(after(s, events)) == RunnerAction::Stop,
    decreases events.len(),
{
    if events.len() > 0 {
        lemma_finished_is_final(s, events.drop_last());
    }
}

/// The events of one sequence followed by those of another lead where the
/// second leads from where the first has led.
pub proof fn lemma_after_concat(
    s: RunnerView,
    first: Seq<RunnerEventView>,
    second: Seq<RunnerEventView>,
)
    ensures
        after(s, first + second) == after(after(s, first), second),
    decreases second.len(),
{
    if second.len() == 0 {
        assert(first + second =~= first);
    } else {
        assert((first + second).drop_last() =~= first + second.drop_last());
        assert((first + second).last() == second.last());
        lemma_after_concat(s, first, second.drop_last());
    }
}

/// After the model is loaded and fewer iterations than the run has have
/// succeeded, the run holds their samples in order and waits for the next
/// iteration.
pub proof fn lemma_successes_keep_running(s: RunnerView, d: Seq<nat>)
    requires
        s.phase is Loading,
        d.len() < s.iteration_count,
    ensures
        after(s, seq![RunnerEventView::ModelLoaded] + successes(d)) == (RunnerView {
            phase: PhaseView::Running {
                samples: d,
                progress: ProgressView {
                    total: s.iteration_count,
                    position: d.len(),
                    finished: false,
                },
            },
            ..s
        }),
    decreases d.len(),
{
    let loaded = seq![RunnerEventView::ModelLoaded];
    if d.len() == 0 {
        assert(loaded + successes(d) =~= loaded);
        assert(loaded.drop_last() =~= Seq::empty());
        assert(after(s, loaded.drop_last()) == s);
        assert(d =~= Seq::empty());
    } else {
        let before = d.drop_last();
        lemma_successes_keep_running(s, before);
        let events = loaded + successes(d);
        assert(events.drop_last() =~= loaded + successes(before));
        assert(events.last() == RunnerEventView::IterationSucceeded { elapsed: d.last() });
        assert(before.push(d.last()) =~= d);
    }
}

/// A run whose iterations all succeed ends with a sample for each of them in
/// order, and so with the first, the last and the mean of exactly the
/// durations that the engine took.
pub proof fn lemma_complete_run(s: RunnerView, d: Seq<nat>)
    requires
        s.phase is Loading,
        d.len() == s.iteration_count,
        d.len() >= 1,
    ensures
        after(s, seq![RunnerEventView::ModelLoaded] + successes(d)) == (RunnerView {
            phase: PhaseView::Finished {
                outcome: Ok(d),
                reporter: Some(
                    ProgressView {
                        total: s.iteration_count,
                        position: s.iteration_count,
                        finished: true,
                    },
                ),
            },
            ..s
        }),
        summary_of(d).first == d[0],
        summary_of(d).last == d[d.len() - 1],
        summary_of(d).mean == crate::stats::total(d) / d.len(),
{
    let loaded = seq![RunnerEventView::ModelLoaded];
    let before = d.drop_last();
    lemma_successes_keep_running(s, before);
    let events = loaded + successes(d);
    assert(events.drop_last() =~= loaded + successes(before));
    assert(events.last() == RunnerEventView::IterationSucceeded { elapsed: d.last() });
    assert(before.push(d.last()) =~= d);
}

/// A run in which the engine fails after some iterations have succeeded ends
/// at once with an inference error that bears the number of iterations
/// completed; it yields no result, and whatever is reported afterwards, no
/// further iteration is asked for.
pub proof fn lemma_failed_run(
    s: RunnerView,
    d: Seq<nat>,
    cause: Seq<char>,
    later: Seq<RunnerEventView>,
)
    requires
        s.phase is Loading,
        d.len() < s.iteration_count,
    ensures
        after(
            s,
            seq![RunnerEventView::ModelLoaded] + successes(d) + seq![
                RunnerEventView::IterationFailed { cause },
            ] + later,
        ) == (RunnerView {
            phase: PhaseView::Finished {
                outcome: Err(
                    BenchmarkErrorView::Inference {
                        cause,
                        iteration: d.len(),
                        completed: d.len(),
                    },
                ),
                reporter: Some(
                    ProgressView { total: s.iteration_count, position: d.len(), finished: true },
                ),
            },
            ..s
        }),
{
    let before = seq![RunnerEventView::ModelLoaded] + successes(d);
    let failure = seq![RunnerEventView::IterationFailed { cause }];
    lemma_successes_keep_running(s, d);
    lemma_after_concat(s, before, failure);
    assert(failure.drop_last() =~= Seq::empty());
    assert(after(after(s, before), failure.drop_last()) == after(s, before));
    lemma_after_concat(s, before + failure, later);
    lemma_finished_is_final(after(s, before + failure), later);
}

/// A run whose model cannot be loaded ends at once with a model load error,
/// before any iteration and without a progress reporter.
pub proof fn lemma_load_failure(s: RunnerView, cause: Seq<char>, later: Seq<RunnerEventView>)
    requires
        s.phase is Loading,
    ensures
        after(s, seq![RunnerEventView::ModelLoadFailed { cause }] + later) == (RunnerView {
            phase: PhaseView::Finished {
                outcome: Err(BenchmarkErrorView::ModelLoad { cause }),
                reporter: None,
            },
            ..s
        }),
{
    let failure = seq![RunnerEventView::ModelLoadFailed { cause }];
    assert(failure.drop_last() =~= Seq::empty());
    assert(after(s, failure.drop_last()) == s);
    lemma_after_concat(s, failure, later);
    lemma_finished_is_final(after(s, failure), later);
}

/// In a run of one iteration that ends well, whatever was reported on the
/// way, the first sample, the last sample and the mean are the same.
pub proof fn lemma_single_iteration(
    model_path: Seq<char>,
    shape_spec: Seq<ShapeEntryView>,
    events: Seq<RunnerEventView>,
)
    requires
        is_shape_spec(shape_spec),
    ensures
        after(initial(model_path, 1, shape_spec), events).phase matches PhaseView::Finished {
            outcome: Ok(d),
            ..
        } ==> d.len() == 1 && summary_of(d).first == summary_of(d).last && summary_of(d).last
            == summary_of(d).mean,
{
    let end = after(initial(model_path, 1, shape_spec), events);
    lemma_valid_always(initial(model_path, 1, shape_spec), events);
    match end.phase {
        PhaseView::Finished { outcome: Ok(d), .. } => {
            lemma_single_sample_summary(d);
        },
        _ => {},
    }
}

/// Where the exec runner stands.
#[derive(Debug)]
enum Phase {
    Loading,
    Running { samples: Vec<TimingSample>, progress: ProgressReporter },
    Finished { outcome: Result<BenchmarkResult, BenchmarkError>, reporter: Option<ProgressReporter> },
}

/// The view of an outcome.
pub open spec fn outcome_view(outcome: Result<BenchmarkResult, BenchmarkError>) -> Result<
    Seq<nat>,
    BenchmarkErrorView,
> {
    match outcome {
        Ok(result) => Ok(result@),
        Err(error) => Err(error@),
    }
}

/// The view of a reporter that may be absent.
pub open spec fn progress_view(progress: Option<ProgressReporter>) -> Option<ProgressView> {
    match progress {
        Some(p) => Some(p@),
        None => None,
    }
}

impl Phase {
    spec fn view(self) -> PhaseView {
        match self {
            Phase::Loading => PhaseView::Loading,
            Phase::Running { samples, progress } => PhaseView::Running {
                samples: durations(samples@),
                progress: progress@,
            },
            Phase::Finished { outcome, reporter } => PhaseView::Finished {
                outcome: outcome_view(outcome),
                reporter: progress_view(reporter),
            },
        }
    }
}

/// A benchmark run: the state machine that decides what its caller does
/// next.
#[derive(Debug)]
pub struct Runner {
    model_path: String,
    shape_spec: ShapeSpec,
    iteration_count: usize,
    phase: Phase,
}

impl View for Runner {
    type V = RunnerView;

    closed spec fn view(&self) -> RunnerView {
        RunnerView {
            model_path: self.model_path@,
            shape_spec: self.shape_spec@,
            iteration_count: self.iteration_count as nat,
            phase: self.phase.view(),
        }
    }
}

impl Runner {
    #[verifier::type_invariant]
    spec fn valid(self) -> bool {
        is_valid(self@)
    }

    /// A run of `iteration_count` iterations of the model at `model_path`
    /// on inputs of the given shapes. A run of no iterations is refused
    /// before anything is asked of the engine.
    pub fn new(model_path: String, iteration_count: usize, shape_spec: ShapeSpec) -> (result:
        Result<Runner, BenchmarkError>)
        ensures
            iteration_count == 0 <==> result is Err,
            result matches Err(e) ==> e@ == BenchmarkErrorView::NoIterations,
            result matches Ok(runner) ==> runner@ == initial(
                model_path@,
                iteration_count as nat,
                shape_spec@,
            ) && is_valid(runner@),
    {
        if iteration_count == 0 {
            return Err(BenchmarkError::NoIterations);
        }
        proof {
            use_type_invariant(&shape_spec);
        }
        Ok(Runner { model_path, shape_spec, iteration_count, phase: Phase::Loading })
    }

    /// The action that the run waits for.
    pub fn pending(&self) -> (action: RunnerAction)
        ensures
            action == pending_action(self@),
            is_valid(self@),
    {
        proof {
            use_type_invariant(self);
        }
        match &self.phase {
            Phase::Loading => RunnerAction::LoadModel,
            Phase::Running { samples, .. } => RunnerAction::RunIteration { index: samples.len() },
            Phase::Finished { .. } => RunnerAction::Stop,
        }
    }

    /// Takes what the caller reports and says what it is to do next.
    pub fn step(self, event: RunnerEvent) -> (out: (Runner, RunnerAction))
        ensures
            out.0@ == next(self@, event@),
            out.1 == pending_action(out.0@),
            is_valid(out.0@),
    {
        proof {
            use_type_invariant(&self);
        }
        let Runner { model_path, shape_spec, iteration_count, phase } = self;
        let (phase, action): (Phase, RunnerAction) = match phase {
            Phase::Loading => match event {
                RunnerEvent::ModelLoaded => {
                    let samples: Vec<TimingSample> = Vec::new();
                    let progress = ProgressReporter::new(iteration_count as u64);
                    assert(durations(samples@) =~= Seq::empty());
                    (Phase::Running { samples, progress }, RunnerAction::RunIteration { index: 0 })
                },
                RunnerEvent::ModelLoadFailed { cause } => (
                    Phase::Finished {
                        outcome: Err(BenchmarkError::ModelLoad { cause }),
                        reporter: None,
                    },
                    RunnerAction::Stop,
                ),
                _ => (Phase::Loading, RunnerAction::LoadModel),
            },
            Phase::Running { samples, progress } => match event {
                RunnerEvent::IterationSucceeded { elapsed } => {
                    let mut samples = samples;
                    let mut progress = progress;
                    proof {
                        lemma_durations_push(samples@, elapsed);
                    }
                    samples.push(elapsed);
                    progress.advance();
                    if samples.len() >= iteration_count {
                        progress.finish();
                        let outcome = match BenchmarkResult::from_samples(samples) {
                            Ok(result) => Ok(result),
                            Err(error) => Err(BenchmarkError::from(error)),
                        };
                        (Phase::Finished { outcome, reporter: Some(progress) }, RunnerAction::Stop)
                    } else {
                        let index: usize = samples.len();
                        (Phase::Running { samples, progress }, RunnerAction::RunIteration { index })
                    }
                },
                RunnerEvent::IterationFailed { cause } => {
                    let mut progress = progress;
                    progress.finish();
                    (
                        Phase::Finished {
                            outcome: Err(
                                BenchmarkError::Inference {
                                    cause,
                                    iteration: samples.len(),
                                    completed: samples.len(),
                                },
                            ),
                            reporter: Some(progress),
                        },
                        RunnerAction::Stop,
                    )
                },
                _ => {
                    let index: usize = samples.len();
                    (Phase::Running { samples, progress }, RunnerAction::RunIteration { index })
                },
            },
            Phase::Finished { outcome, reporter } => (
                Phase::Finished { outcome, reporter },
                RunnerAction::Stop,
            ),
        };
        (Runner { model_path, shape_spec, iteration_count, phase }, action)
    }

    /// Where the model file lies.
    pub fn model_path(&self) -> (path: &String)
        ensures
            path@ == self@.model_path,
    {
        &self.model_path
    }

    /// The shapes of the inputs of every iteration.
    pub fn shape_spec(&self) -> (spec: &ShapeSpec)
        ensures
            spec@ == self@.shape_spec,
            is_shape_spec(spec@),
    {
        proof {
            use_type_invariant(self);
        }
        &self.shape_spec
    }

    /// The number of iterations of the run, which is at least one.
    pub fn iteration_count(&self) -> (n: usize)
        ensures
            n == self@.iteration_count,
            n >= 1,
    {
        proof {
            use_type_invariant(self);
        }
        self.iteration_count
    }

    /// The progress reporter of the run, which is there from the moment the
    /// model is loaded.
    pub fn progress(&self) -> (progress: Option<ProgressReporter>)
        ensures
            progress_view(progress) == match self@.phase {
                PhaseView::Loading => None,
                PhaseView::Running { progress, .. } => Some(progress),
                PhaseView::Finished { reporter, .. } => reporter,
            },
    {
        match &self.phase {
            Phase::Loading => None,
            Phase::Running { progress, .. } => Some(*progress),
            Phase::Finished { reporter, .. } => *reporter,
        }
    }

    /// Whether the run has ended.
    pub fn is_finished(&self) -> (done: bool)
        ensures
            done == (self@.phase is Finished),
    {
        match &self.phase {
            Phase::Finished { .. } => true,
            _ => false,
        }
    }

    /// The outcome of the run, which is there once the run has ended.
    pub fn into_outcome(self) -> (outcome: Option<Result<BenchmarkResult, BenchmarkError>>)
        ensures
            is_valid(self@),
            match self@.phase {
                PhaseView::Finished { outcome: o, .. } => outcome matches Some(r) && outcome_view(r)
                    == o,
                _ => outcome is None,
            },
    {
        proof {
            use_type_invariant(&self);
        }
        match self.phase {
            Phase::Finished { outcome, .. } => Some(outcome),
            _ => None,
        }
    }
}

} // verus!
