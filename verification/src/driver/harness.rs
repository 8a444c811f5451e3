//! The verdict on a test run.
//!
//! Each test is a symbol of the library that was built. The caller looks the
//! symbol up and calls it; what comes back is the status the test returned,
//! or nothing where the library has no such symbol. A status of zero passes.
//! A test that fails, or that is not found, does not end the run.
use vstd::prelude::*;

verus! {

/// How one test ended.
#[derive(Clone, Copy, Debug, PartialEq, Eq, Structural)]
pub enum Outcome {
    /// The test returned zero.
    Passed,
    /// The test returned another status.
    Failed,
    /// The library has no symbol for the test.
    Missing,
}

/// The counts of a test run.
#[derive(Clone, Copy, Debug, PartialEq, Eq, Structural)]
pub struct Summary {
    pub passed: usize,
    pub failed: usize,
}

/// How a test ended that returned `status`, or that was not found.
pub open spec fn outcome_of(status: Option<i32>) -> Outcome {
    match status {
        Some(code) => if code == 0 {
            Outcome::Passed
        } else {
            Outcome::Failed
        },
        None => Outcome::Missing,
    }
}

/// How many of `statuses` pass.
pub open spec fn passes(statuses: Seq<Option<i32>>) -> nat
    decreases statuses.len(),
{
    if statuses.len() == 0 {
        0
    } else {
        passes(statuses.drop_last()) + if outcome_of(statuses.last()) == Outcome::Passed {
            1nat
        } else {
            0nat
        }
    }
}

/// How a test ended that returned `status`, or that was not found.
pub fn outcome(status: Option<i32>) -> (ended: Outcome)
    ensures
        ended == outcome_of(status),
{
    match status {
        Some(0) => Outcome::Passed,
        Some(_) => Outcome::Failed,
        None => Outcome::Missing,
    }
}

/// The counts of a run in which the tests ended with `statuses`: every test
/// is counted once, as passed if it returned zero and as failed if not.
pub fn summarize(statuses: &Vec<Option<i32>>) -> (summary: Summary)
    ensures
        summary.passed == passes(statuses@),
        summary.passed + summary.failed == statuses@.len(),
{
    let mut passed: usize = 0;
    let mut i: usize = 0;
    assert(statuses@.subrange(0, 0) =~= Seq::empty());
    while i < statuses.len()
        invariant
            i <= statuses.len(),
            passed == passes(statuses@.subrange(0, i as int)),
            passed <= i,
        decreases statuses.len() - i,
    {
        assert(statuses@.subrange(0, i + 1).drop_last() =~= statuses@.subrange(0, i as int));
        match outcome(statuses[i]) {
            Outcome::Passed => {
                passed += 1;
            },
            _ => {},
        }
        i += 1;
    }
    assert(statuses@.subrange(0, i as int) =~= statuses@);
    Summary { passed, failed: statuses.len() - passed }
}

impl Summary {
    /// Whether every test passed.
    pub fn ok(&self) -> (all: bool)
        ensures
            all == (self.failed == 0),
    {
        self.failed == 0
    }
}

} // verus!
