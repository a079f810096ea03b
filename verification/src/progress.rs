//! The progress of a run as its reporter sees it.

use vstd::prelude::*;

verus! {

/// What a progress reporter shows: how many steps there are, how many of
/// them are done, and whether the reporter has been finished.
pub struct ProgressView {
    pub total: nat,
    pub position: nat,
    pub finished: bool,
}

/// The view of a reporter that was just made for `total` steps.
pub open spec fn fresh(total: nat) -> ProgressView {
    ProgressView { total, position: 0, finished: false }
}

/// The view after one more step was reported done. A finished reporter, and
/// one that has reached its total, stays as it is.
pub open spec fn advanced(p: ProgressView) -> ProgressView {
    if p.finished || p.position >= p.total {
        p
    } else {
        ProgressView { position: p.position + 1, ..p }
    }
}

/// The view after the reporter was finished.
pub open spec fn finished(p: ProgressView) -> ProgressView {
    ProgressView { finished: true, ..p }
}

/// The handle of a progress reporter. It only observes: nothing that it does
/// can fail, and no timing sample depends on it.
#[derive(Clone, Copy, Debug, PartialEq, Eq, Structural)]
pub struct ProgressReporter {
    total: u64,
    position: u64,
    finished: bool,
}

impl View for ProgressReporter {
    type V = ProgressView;

    closed spec fn view(&self) -> ProgressView {
        ProgressView {
            total: self.total as nat,
            position: self.position as nat,
            finished: self.finished,
        }
    }
}

impl ProgressReporter {
    /// A reporter for `total` steps, none of them done.
    pub fn new(total: u64) -> (reporter: ProgressReporter)
        ensures
            reporter@ == fresh(total as nat),
    {
        ProgressReporter { total, position: 0, finished: false }
    }

    /// Reports one more step done.
    pub fn advance(&mut self)
        ensures
            final(self)@ == advanced(old(self)@),
    {
        if !self.finished && self.position < self.total {
            self.position = self.position + 1;
        }
    }

    /// Finishes the reporter.
    pub fn finish(&mut self)
        ensures
            final(self)@ == finished(old(self)@),
    {
        self.finished = true;
    }

    /// The number of steps that the reporter was made for.
    pub fn total(&self) -> (total: u64)
        ensures
            total == self@.total,
    {
        self.total
    }

    /// The number of steps reported done.
    pub fn position(&self) -> (position: u64)
        ensures
            position == self@.position,
    {
        self.position
    }

    /// Whether the reporter has been finished.
    pub fn is_finished(&self) -> (finished: bool)
        ensures
            finished == self@.finished,
    {
        self.finished
    }
}

} // verus!
