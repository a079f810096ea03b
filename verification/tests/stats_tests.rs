use onnxbench::stats::{summarize, EmptySampleSetError, TimingSample};

fn samples(nanos: &[u64]) -> Vec<TimingSample> {
    nanos.iter().map(|n| TimingSample::from_nanos(*n)).collect()
}

#[test]
fn summarize_rejects_no_samples() {
    assert_eq!(summarize(&Vec::new()), Err(EmptySampleSetError {}));
}

#[test]
fn summarize_takes_first_last_and_mean() {
    let summary = summarize(&samples(&[40, 10, 30, 20])).unwrap();
    assert_eq!(summary.first.as_nanos(), 40);
    assert_eq!(summary.last.as_nanos(), 20);
    assert_eq!(summary.mean.as_nanos(), 25);
}

#[test]
fn summarize_rounds_the_mean_down() {
    assert_eq!(summarize(&samples(&[1, 2])).unwrap().mean.as_nanos(), 1);
    assert_eq!(summarize(&samples(&[0, 0, 2])).unwrap().mean.as_nanos(), 0);
    assert_eq!(summarize(&samples(&[3, 3, 4])).unwrap().mean.as_nanos(), 3);
}

#[test]
fn summarize_sums_before_it_divides() {
    // Dividing each sample by the count first would give 0 + 0 + 0.
    assert_eq!(summarize(&samples(&[2, 2, 2])).unwrap().mean.as_nanos(), 2);
    assert_eq!(summarize(&samples(&[1, 1, 1, 1, 6])).unwrap().mean.as_nanos(), 2);
}

#[test]
fn summarize_of_one_sample() {
    let summary = summarize(&samples(&[1234])).unwrap();
    assert_eq!(summary.first, summary.last);
    assert_eq!(summary.last, summary.mean);
    assert_eq!(summary.mean.as_nanos(), 1234);
}

#[test]
fn summarize_does_not_overflow() {
    let summary = summarize(&samples(&[u64::MAX, u64::MAX, u64::MAX])).unwrap();
    assert_eq!(summary.mean.as_nanos(), u64::MAX);
    let summary = summarize(&samples(&[u64::MAX, 0])).unwrap();
    assert_eq!(summary.mean.as_nanos(), u64::MAX / 2);
}

#[test]
fn mean_lies_between_minimum_and_maximum() {
    let runs: [&[u64]; 5] =
        [&[5], &[1, 1_000_000], &[9, 8, 7, 6], &[0, 0, 1], &[u64::MAX, 1, u64::MAX - 1]];
    for run in runs {
        let mean = summarize(&samples(run)).unwrap().mean.as_nanos();
        assert!(*run.iter().min().unwrap() <= mean);
        assert!(mean <= *run.iter().max().unwrap());
    }
}

#[test]
fn timing_sample_keeps_its_nanoseconds() {
    assert_eq!(TimingSample::from_nanos(0).as_nanos(), 0);
    assert_eq!(TimingSample::from_nanos(1_500_000).as_nanos(), 1_500_000);
    assert_eq!(TimingSample::from_nanos(7), TimingSample { nanos: 7 });
}

#[test]
fn timing_sample_saturates_at_its_largest_value() {
    assert_eq!(TimingSample::saturating_from_nanos(0).as_nanos(), 0);
    assert_eq!(TimingSample::saturating_from_nanos(1_234_567).as_nanos(), 1_234_567);
    assert_eq!(TimingSample::saturating_from_nanos(u64::MAX as u128).as_nanos(), u64::MAX);
    assert_eq!(TimingSample::saturating_from_nanos(u64::MAX as u128 + 1).as_nanos(), u64::MAX);
    assert_eq!(TimingSample::saturating_from_nanos(u128::MAX).as_nanos(), u64::MAX);
}
