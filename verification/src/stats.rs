//! Timing samples and their summary: first, last and mean elapsed time.

use vstd::prelude::*;

verus! {

/// The elapsed time of a single iteration, in whole nanoseconds.
#[derive(Clone, Copy, Debug, PartialEq, Eq, Structural)]
pub struct TimingSample {
    pub nanos: u64,
}

impl View for TimingSample {
    type V = nat;

    open spec fn view(&self) -> nat {
        self.nanos as nat
    }
}

impl TimingSample {
    /// A sample of `nanos` nanoseconds.
    pub fn from_nanos(nanos: u64) -> (sample: TimingSample)
        ensures
            sample@ == nanos,
    {
        TimingSample { nanos }
    }

    /// The sample of a duration of `nanos` nanoseconds as a clock gives it.
    /// A sample holds at most `u64::MAX` nanoseconds, some 584 years; a
    /// longer duration is taken as that.
    pub fn saturating_from_nanos(nanos: u128) -> (sample: TimingSample)
        ensures
            sample@ == if nanos <= u64::MAX {
                nanos as nat
            } else {
                u64::MAX as nat
            },
    {
        if nanos <= u64::MAX as u128 {
            TimingSample { nanos: nanos as u64 }
        } else {
            TimingSample { nanos: u64::MAX }
        }
    }

    /// The sample in nanoseconds.
    pub fn as_nanos(&self) -> (nanos: u64)
        ensures
            nanos == self@,
    {
        self.nanos
    }
}

/// The durations, in nanoseconds, of a sequence of samples.
pub open spec fn durations(samples: Seq<TimingSample>) -> Seq<nat> {
    Seq::new(samples.len(), |i: int| samples[i]@)
}

/// The sum of a sequence of durations.
pub open spec fn total(d: Seq<nat>) -> nat
    decreases d.len(),
{
    if d.len() == 0 {
        0
    } else {
        total(d.drop_last()) + d.last()
    }
}

/// The mean of a sequence of durations: the exact sum divided by the count,
/// rounded down to a whole nanosecond.
pub open spec fn mean(d: Seq<nat>) -> nat
    recommends
        d.len() > 0,
{
    total(d) / d.len()
}

/// The smallest duration of a non-empty sequence.
pub open spec fn minimum(d: Seq<nat>) -> nat
    recommends
        d.len() > 0,
    decreases d.len(),
{
    if d.len() <= 1 {
        d.last()
    } else if d.last() < minimum(d.drop_last()) {
        d.last()
    } else {
        minimum(d.drop_last())
    }
}

/// The largest duration of a non-empty sequence.
pub open spec fn maximum(d: Seq<nat>) -> nat
    recommends
        d.len() > 0,
    decreases d.len(),
{
    if d.len() <= 1 {
        d.last()
    } else if d.last() > maximum(d.drop_last()) {
        d.last()
    } else {
        maximum(d.drop_last())
    }
}

/// First, last and mean of a non-empty sequence of durations.
pub struct SummaryView {
    pub first: nat,
    pub last: nat,
    pub mean: nat,
}

/// The summary that belongs to a non-empty sequence of durations.
pub open spec fn summary_of(d: Seq<nat>) -> SummaryView
    recommends
        d.len() > 0,
{
    SummaryView { first: d.first(), last: d.last(), mean: mean(d) }
}

/// First, last and mean elapsed time of a run.
#[derive(Clone, Copy, Debug, PartialEq, Eq, Structural)]
pub struct Summary {
    pub first: TimingSample,
    pub last: TimingSample,
    pub mean: TimingSample,
}

impl View for Summary {
    type V = SummaryView;

    open spec fn view(&self) -> SummaryView {
        SummaryView { first: self.first@, last: self.last@, mean: self.mean@ }
    }
}

/// Returned when a summary of no samples at all is asked for.
#[derive(Clone, Copy, Debug, PartialEq, Eq, Structural)]
pub struct EmptySampleSetError {}

/// Every duration of `d` lies between `lo` and `hi`.
pub open spec fn all_within(d: Seq<nat>, lo: nat, hi: nat) -> bool {
    forall|i: int| 0 <= i < d.len() ==> lo <= #[trigger] d[i] <= hi
}

/// The durations of a sequence extended by one sample.
pub proof fn lemma_durations_push(samples: Seq<TimingSample>, sample: TimingSample)
    ensures
        durations(samples.push(sample)) == durations(samples).push(sample@),
{
    assert(durations(samples.push(sample)) =~= durations(samples).push(sample@));
}

/// A sum of durations that all lie between `lo` and `hi` lies between the
/// count times `lo` and the count times `hi`.
pub proof fn lemma_total_bounds(d: Seq<nat>, lo: nat, hi: nat)
    requires
        all_within(d, lo, hi),
    ensures
        d.len() * lo <= total(d) <= d.len() * hi,
    decreases d.len(),
{
    if d.len() > 0 {
        let rest = d.drop_last();
        assert(all_within(rest, lo, hi)) by {
            assert forall|i: int| 0 <= i < rest.len() implies lo <= #[trigger] rest[i] <= hi by {
                assert(rest[i] == d[i]);
            }
        }
        lemma_total_bounds(rest, lo, hi);
        assert(lo <= d[d.len() - 1] <= hi);
        assert(d.len() * lo == rest.len() * lo + lo) by (nonlinear_arith)
            requires
                d.len() == rest.len() + 1,
        ;
        assert(d.len() * hi == rest.len() * hi + hi) by (nonlinear_arith)
            requires
                d.len() == rest.len() + 1,
        ;
    } else {
        assert(d.len() * lo == 0 && d.len() * hi == 0) by (nonlinear_arith)
            requires
                d.len() == 0,
        ;
    }
}

/// The minimum and the maximum of a non-empty sequence bound each of its
/// durations.
pub proof fn lemma_minimum_maximum_bound(d: Seq<nat>)
    requires
        d.len() > 0,
    ensures
        all_within(d, minimum(d), maximum(d)),
        minimum(d) <= maximum(d),
    decreases d.len(),
{
    if d.len() > 1 {
        let rest = d.drop_last();
        lemma_minimum_maximum_bound(rest);
        assert forall|i: int| 0 <= i < d.len() implies minimum(d) <= #[trigger] d[i] <= maximum(
            d,
        ) by {
            if i < rest.len() {
                assert(rest[i] == d[i]);
            }
        }
    }
}

/// The mean of a non-empty sequence of durations lies between its minimum
/// and its maximum, both included.
pub proof fn lemma_mean_between_minimum_and_maximum(d: Seq<nat>)
    requires
        d.len() > 0,
    ensures
        minimum(d) <= mean(d) <= maximum(d),
{
    lemma_minimum_maximum_bound(d);
    lemma_total_bounds(d, minimum(d), maximum(d));
    lemma_quotient_bounds(total(d), d.len(), minimum(d), maximum(d));
}

/// A quotient lies between two bounds when the dividend lies between their
/// multiples by the divisor.
pub proof fn lemma_quotient_bounds(t: nat, n: nat, lo: nat, hi: nat)
    requires
        n > 0,
        n * lo <= t <= n * hi,
    ensures
        lo <= t / n <= hi,
{
    assert(lo <= t / n <= hi) by (nonlinear_arith)
        requires
            n > 0,
            n * lo <= t <= n * hi,
    ;
}

/// A single sample is the first, the last and the mean of its own run.
pub proof fn lemma_single_sample_summary(d: Seq<nat>)
    requires
        d.len() == 1,
    ensures
        summary_of(d).first == d[0],
        summary_of(d).last == d[0],
        summary_of(d).mean == d[0],
{
    assert(d.drop_last().len() == 0);
    assert(total(d.drop_last()) == 0);
    assert(total(d) == d[0]);
}

/// Reduces the samples of a run to their first, last and mean, or fails when
/// there is no sample.
pub fn summarize(samples: &Vec<TimingSample>) -> (result: Result<Summary, EmptySampleSetError>)
    ensures
        samples.len() == 0 <==> result is Err,
        result matches Ok(summary) ==> summary@ == summary_of(durations(samples@)),
{
    let count: usize = samples.len();
    if count == 0 {
        return Err(EmptySampleSetError {  });
    }
    let ghost d = durations(samples@);
    let mut sum: u128 = 0;
    let mut i: usize = 0;
    while i < count
        invariant
            count == samples.len(),
            i <= count,
            d == durations(samples@),
            sum == total(d.take(i as int)),
            sum <= i * u64::MAX,
        decreases count - i,
    {
        let sample: u64 = samples[i].as_nanos();
        proof {
            assert(d.take(i + 1).drop_last() =~= d.take(i as int));
            assert(d.take(i + 1).last() == sample);
            assert((i + 1) * u64::MAX == i * u64::MAX + u64::MAX) by (nonlinear_arith);
            assert((i + 1) * u64::MAX <= usize::MAX * u64::MAX) by (nonlinear_arith)
                requires
                    i + 1 <= usize::MAX,
            ;
            assert(usize::MAX * u64::MAX <= u64::MAX * u64::MAX) by (nonlinear_arith)
                requires
                    usize::MAX <= u64::MAX,
            ;
        }
        sum = sum + sample as u128;
        i = i + 1;
    }
    proof {
        assert(d.take(count as int) =~= d);
        lemma_quotient_bounds(sum as nat, count as nat, 0, u64::MAX as nat);
    }
    let mean: u64 = (sum / count as u128) as u64;
    Ok(Summary { first: samples[0], last: samples[count - 1], mean: TimingSample::from_nanos(mean) })
}

} // verus!
