use onnxbench::cli::Cli;
use onnxbench::runner::{BenchmarkError, BenchmarkResult, Runner, RunnerAction, RunnerEvent};
use onnxbench::shape::{parse, ShapeSpec};
use onnxbench::stats::{EmptySampleSetError, TimingSample};

/// What a run asked of the engine that stands in for the real one.
struct Trace {
    loads: usize,
    iterations: Vec<usize>,
    positions: Vec<u64>,
    finishes: usize,
}

fn shapes() -> ShapeSpec {
    parse("images:1,3,640,640").unwrap()
}

fn succeeded(nanos: u64) -> RunnerEvent {
    RunnerEvent::IterationSucceeded { elapsed: TimingSample::from_nanos(nanos) }
}

fn failed(cause: &str) -> RunnerEvent {
    RunnerEvent::IterationFailed { cause: cause.to_string() }
}

/// Runs the benchmark against an engine that loads or not, and that answers
/// iteration `i` with `engine(i)`.
fn run(
    model_path: &str,
    iteration_count: usize,
    shape_spec: ShapeSpec,
    loads: Result<(), String>,
    engine: &dyn Fn(usize) -> Result<u64, String>,
) -> (Result<BenchmarkResult, BenchmarkError>, Trace) {
    let mut trace = Trace { loads: 0, iterations: Vec::new(), positions: Vec::new(), finishes: 0 };
    let mut runner = match Runner::new(model_path.to_string(), iteration_count, shape_spec) {
        Ok(runner) => runner,
        Err(error) => return (Err(error), trace),
    };
    let mut action = runner.pending();
    loop {
        let event = match action {
            RunnerAction::LoadModel => {
                trace.loads += 1;
                match &loads {
                    Ok(()) => RunnerEvent::ModelLoaded,
                    Err(cause) => RunnerEvent::ModelLoadFailed { cause: cause.clone() },
                }
            }
            RunnerAction::RunIteration { index } => {
                trace.iterations.push(index);
                match engine(index) {
                    Ok(nanos) => succeeded(nanos),
                    Err(cause) => RunnerEvent::IterationFailed { cause },
                }
            }
            RunnerAction::Stop => break,
        };
        let was_finished = runner.progress().map_or(false, |p| p.is_finished());
        let (next, next_action) = runner.step(event);
        runner = next;
        action = next_action;
        if let Some(progress) = runner.progress() {
            trace.positions.push(progress.position());
            if progress.is_finished() && !was_finished {
                trace.finishes += 1;
            }
        }
    }
    assert!(runner.is_finished());
    (runner.into_outcome().unwrap(), trace)
}

fn nanos(result: &BenchmarkResult) -> Vec<u64> {
    result.samples().iter().map(|s| s.as_nanos()).collect()
}

#[test]
fn test_infer() {
    let (outcome, trace) = run("model.onnx", 2, shapes(), Ok(()), &|i| Ok(100 + i as u64));
    let result = outcome.unwrap();
    assert_eq!(nanos(&result), vec![100, 101]);
    assert_eq!(trace.loads, 1);
    assert_eq!(trace.iterations, vec![0, 1]);
}

#[test]
fn test_benchmark() {
    let inn = Cli {
        model_path: ".assets/yolov5nu.onnx".to_string(),
        loop_num: 2,
        level: "debug".to_string(),
        input_shape: "images:1,3,640,640".to_string(),
    };
    let (res, _) = run(
        inn.model_path.as_str(),
        inn.loop_num,
        inn.parse_input_shape().unwrap(),
        Ok(()),
        &|_| Ok(1_000_000),
    );
    assert_eq!(res.map(|_| ()), Ok(()));
}

#[test]
fn run_of_no_iterations_is_refused_before_the_model_is_touched() {
    let (outcome, trace) = run("model.onnx", 0, shapes(), Ok(()), &|_| Ok(1));
    assert_eq!(outcome.unwrap_err(), BenchmarkError::NoIterations);
    assert_eq!(trace.loads, 0);
    assert!(trace.iterations.is_empty());
    let (outcome, trace) = run("missing.onnx", 0, shapes(), Err("no file".to_string()), &|_| Ok(1));
    assert_eq!(outcome.unwrap_err(), BenchmarkError::NoIterations);
    assert_eq!(trace.loads, 0);
}

#[test]
fn run_of_one_iteration_has_one_value_for_first_last_and_mean() {
    let (outcome, _) = run("model.onnx", 1, shapes(), Ok(()), &|_| Ok(4_321));
    let result = outcome.unwrap();
    assert_eq!(result.len(), 1);
    assert_eq!(result.first(), result.last());
    assert_eq!(result.last(), result.mean());
    assert_eq!(result.mean().as_nanos(), 4_321);
}

#[test]
fn run_aborts_at_the_iteration_that_fails() {
    let engine = |i: usize| if i == 3 { Err("engine broke".to_string()) } else { Ok(50) };
    let (outcome, trace) = run("model.onnx", 10, shapes(), Ok(()), &engine);
    assert_eq!(
        outcome.unwrap_err(),
        BenchmarkError::Inference { cause: "engine broke".to_string(), iteration: 3, completed: 3 }
    );
    assert_eq!(trace.iterations, vec![0, 1, 2, 3]);
    assert_eq!(trace.positions, vec![0, 1, 2, 3, 3]);
    assert_eq!(trace.finishes, 1);
}

#[test]
fn run_that_fails_in_its_first_iteration_has_completed_none() {
    let (outcome, trace) = run("model.onnx", 4, shapes(), Ok(()), &|_| Err("bad input".to_string()));
    assert_eq!(
        outcome.unwrap_err(),
        BenchmarkError::Inference { cause: "bad input".to_string(), iteration: 0, completed: 0 }
    );
    assert_eq!(trace.iterations, vec![0]);
    assert_eq!(trace.finishes, 1);
}

#[test]
fn run_that_fails_in_its_last_iteration_yields_no_result() {
    let engine = |i: usize| if i == 4 { Err("late".to_string()) } else { Ok(7) };
    let (outcome, trace) = run("model.onnx", 5, shapes(), Ok(()), &engine);
    assert_eq!(
        outcome.unwrap_err(),
        BenchmarkError::Inference { cause: "late".to_string(), iteration: 4, completed: 4 }
    );
    assert_eq!(trace.iterations, vec![0, 1, 2, 3, 4]);
}

#[test]
fn run_reports_the_durations_that_the_engine_took() {
    let durations: Vec<u64> = vec![900, 100, 200, 300, 425];
    let engine = |i: usize| Ok(durations[i]);
    let (outcome, trace) = run("model.onnx", 5, shapes(), Ok(()), &engine);
    let result = outcome.unwrap();
    assert_eq!(nanos(&result), durations);
    assert_eq!(result.first().as_nanos(), 900);
    assert_eq!(result.last().as_nanos(), 425);
    assert_eq!(result.mean().as_nanos(), (900 + 100 + 200 + 300 + 425) / 5);
    assert_eq!(result.mean().as_nanos(), 385);
    assert_eq!(result.summary().first, result.first());
    assert_eq!(result.summary().last, result.last());
    assert_eq!(result.summary().mean, result.mean());
    assert_eq!(trace.iterations, vec![0, 1, 2, 3, 4]);
    assert_eq!(trace.positions, vec![0, 1, 2, 3, 4, 5]);
    assert_eq!(trace.finishes, 1);
}

#[test]
fn run_with_a_linear_engine_has_the_closed_form_mean() {
    let count: usize = 100;
    let (outcome, _) = run("model.onnx", count, shapes(), Ok(()), &|i| Ok(1_000 + 10 * i as u64));
    let result = outcome.unwrap();
    assert_eq!(result.len(), count);
    assert_eq!(result.first().as_nanos(), 1_000);
    assert_eq!(result.last().as_nanos(), 1_990);
    assert_eq!(result.mean().as_nanos(), 1_495);
}

#[test]
fn run_keeps_the_first_sample_in_the_mean() {
    let engine = |i: usize| if i == 0 { Ok(1_000_000) } else { Ok(10) };
    let (outcome, _) = run("model.onnx", 4, shapes(), Ok(()), &engine);
    let result = outcome.unwrap();
    assert_eq!(result.first().as_nanos(), 1_000_000);
    assert_eq!(result.mean().as_nanos(), (1_000_000 + 30) / 4);
}

#[test]
fn run_ends_when_the_model_does_not_load() {
    let (outcome, trace) =
        run("missing.onnx", 3, shapes(), Err("no such file".to_string()), &|_| Ok(1));
    assert_eq!(
        outcome.unwrap_err(),
        BenchmarkError::ModelLoad { cause: "no such file".to_string() }
    );
    assert_eq!(trace.loads, 1);
    assert!(trace.iterations.is_empty());
    assert!(trace.positions.is_empty());
}

#[test]
fn runner_keeps_what_it_was_made_with() {
    let runner = Runner::new("dir/model.onnx".to_string(), 7, parse("a:1,2;b:3").unwrap()).unwrap();
    assert_eq!(runner.model_path(), "dir/model.onnx");
    assert_eq!(runner.iteration_count(), 7);
    assert_eq!(runner.shape_spec().len(), 2);
    assert_eq!(runner.shape_spec().get("b"), Some(&vec![3usize]));
    assert_eq!(runner.pending(), RunnerAction::LoadModel);
    assert!(!runner.is_finished());
    assert_eq!(runner.progress(), None);
    assert!(runner.into_outcome().is_none());
}

#[test]
fn runner_makes_its_reporter_when_the_model_is_loaded() {
    let runner = Runner::new("m".to_string(), 3, shapes()).unwrap();
    let (runner, action) = runner.step(RunnerEvent::ModelLoaded);
    assert_eq!(action, RunnerAction::RunIteration { index: 0 });
    let progress = runner.progress().unwrap();
    assert_eq!(progress.total(), 3);
    assert_eq!(progress.position(), 0);
    assert!(!progress.is_finished());
    assert!(runner.into_outcome().is_none());
}

#[test]
fn runner_ignores_an_event_that_answers_nothing() {
    let runner = Runner::new("m".to_string(), 2, shapes()).unwrap();
    let (runner, action) = runner.step(succeeded(5));
    assert_eq!(action, RunnerAction::LoadModel);
    let (runner, action) = runner.step(failed("early"));
    assert_eq!(action, RunnerAction::LoadModel);
    assert!(!runner.is_finished());
    let (runner, action) = runner.step(RunnerEvent::ModelLoaded);
    assert_eq!(action, RunnerAction::RunIteration { index: 0 });
    let (runner, action) = runner.step(RunnerEvent::ModelLoaded);
    assert_eq!(action, RunnerAction::RunIteration { index: 0 });
    let (runner, action) =
        runner.step(RunnerEvent::ModelLoadFailed { cause: "late".to_string() });
    assert_eq!(action, RunnerAction::RunIteration { index: 0 });
    assert_eq!(runner.progress().unwrap().position(), 0);
    let (runner, action) = runner.step(succeeded(5));
    assert_eq!(action, RunnerAction::RunIteration { index: 1 });
    let (runner, action) = runner.step(succeeded(9));
    assert_eq!(action, RunnerAction::Stop);
    assert_eq!(nanos(&runner.into_outcome().unwrap().unwrap()), vec![5, 9]);
}

#[test]
fn runner_stays_as_it_is_once_it_has_ended() {
    let runner = Runner::new("m".to_string(), 1, shapes()).unwrap();
    let (runner, _) = runner.step(RunnerEvent::ModelLoaded);
    let (runner, action) = runner.step(failed("first"));
    assert_eq!(action, RunnerAction::Stop);
    let (runner, action) = runner.step(succeeded(3));
    assert_eq!(action, RunnerAction::Stop);
    let (runner, action) = runner.step(failed("second"));
    assert_eq!(action, RunnerAction::Stop);
    let (runner, action) = runner.step(RunnerEvent::ModelLoaded);
    assert_eq!(action, RunnerAction::Stop);
    assert_eq!(runner.pending(), RunnerAction::Stop);
    let progress = runner.progress().unwrap();
    assert!(progress.is_finished());
    assert_eq!(progress.position(), 0);
    assert_eq!(
        runner.into_outcome().unwrap().unwrap_err(),
        BenchmarkError::Inference { cause: "first".to_string(), iteration: 0, completed: 0 }
    );
}

#[test]
fn result_of_no_samples_is_refused() {
    assert!(BenchmarkResult::from_samples(Vec::new()).is_err());
    let result = BenchmarkResult::from_samples(vec![
        TimingSample::from_nanos(4),
        TimingSample::from_nanos(8),
        TimingSample::from_nanos(9),
    ])
    .unwrap();
    assert_eq!(result.len(), 3);
    assert_eq!(result.first().as_nanos(), 4);
    assert_eq!(result.last().as_nanos(), 9);
    assert_eq!(result.mean().as_nanos(), 7);
}

#[test]
fn empty_sample_set_is_a_benchmark_error() {
    let error = BenchmarkResult::from_samples(Vec::new()).unwrap_err();
    assert_eq!(error, EmptySampleSetError {});
    assert_eq!(BenchmarkError::from(error), BenchmarkError::EmptySampleSet);
}
