//! The schedule of the micro-benchmark harness.
//!
//! The harness runs a startup producer and a timed critical section once per
//! iteration: first a number of warmup iterations whose timings are
//! discarded, then the measured trials.  The wall-clock timing itself cannot
//! be reasoned about here, so the loop that reads the clock lives with the
//! caller; this module decides, and proves, how many iterations run and
//! which of them are measured.

use vstd::prelude::*;

verus! {

/// Configuration of a benchmark run.
pub struct BenchOptions {
    /// Number of warmup iterations, timed and discarded.
    pub warmup: usize,

    /// Number of measured trials.
    pub trial_count: usize,
}

/// The set of iteration indices that a run with options `o` measures.
pub open spec fn measured_set(o: BenchOptions) -> Set<int> {
    Set::new(|i: int| o.warmup <= i < o.warmup + o.trial_count)
}

/// How many iterations a benchmark run performs in total: every warmup
/// iteration and every measured trial.
pub fn total_iterations(o: &BenchOptions) -> (r: usize)
    requires
        o.warmup + o.trial_count <= usize::MAX,
    ensures
        r == o.warmup + o.trial_count,
{
    o.warmup + o.trial_count
}

/// Whether the iteration with index `i` is measured: warmup iterations are
/// discarded, every later iteration counts toward the reported mean.
pub fn is_measured(o: &BenchOptions, i: usize) -> (r: bool)
    ensures
        r == (i >= o.warmup),
{
    i >= o.warmup
}

/// A run performs exactly `warmup + trial_count` iterations and measures
/// exactly `trial_count` of them: the measured indices are precisely
/// `[warmup, warmup + trial_count)`.
pub proof fn lemma_measured_count(o: BenchOptions)
    requires
        o.warmup + o.trial_count <= usize::MAX,
    ensures
        measured_set(o).finite(),
        measured_set(o).len() == o.trial_count,
        forall|i: int|
            0 <= i < o.warmup + o.trial_count ==>
                (measured_set(o).contains(i) <==> i >= o.warmup),
{
    vstd::set_lib::lemma_int_range(o.warmup as int, o.warmup + o.trial_count);
    assert(measured_set(o) =~= vstd::set_lib::set_int_range(
        o.warmup as int,
        o.warmup + o.trial_count,
    ));
}

} // verus!
