//! The outcome tally: succeeded tasks, failed tasks, skipped albums.
//!
//! Workers report one boolean outcome per task; reducing the collected
//! outcomes gives the final counts. The counts depend only on the multiset
//! of outcomes, so worker-pool size and scheduling order cannot change
//! them.

use vstd::prelude::*;
use vstd::multiset::Multiset;
use vstd::seq_lib::group_to_multiset_ensures;

verus! {

/// How many outcomes report success.
pub open spec fn count_true(s: Seq<bool>) -> int
    decreases s.len(),
{
    if s.len() == 0 {
        0
    } else {
        count_true(s.drop_last()) + if s.last() {
            1int
        } else {
            0int
        }
    }
}

/// The success count lies between zero and the number of outcomes.
pub proof fn lemma_count_true_bounds(s: Seq<bool>)
    ensures
        0 <= count_true(s) <= s.len(),
    decreases s.len(),
{
    if s.len() > 0 {
        lemma_count_true_bounds(s.drop_last());
    }
}

/// The final summary counters.
#[derive(Debug)]
pub struct Tally {
    pub succeeded: usize,
    pub failed: usize,
    pub skipped: usize,
}

impl Tally {
    /// A fresh tally with every counter at zero.
    pub fn new() -> (t: Tally)
        ensures
            t.succeeded == 0,
            t.failed == 0,
            t.skipped == 0,
    {
        Tally { succeeded: 0, failed: 0, skipped: 0 }
    }

    /// Counts one succeeded task.
    pub fn record_success(&mut self)
        requires
            old(self).succeeded < usize::MAX,
        ensures
            final(self).succeeded == old(self).succeeded + 1,
            final(self).failed == old(self).failed,
            final(self).skipped == old(self).skipped,
    {
        self.succeeded = self.succeeded + 1;
    }

    /// Counts one failed task.
    pub fn record_failure(&mut self)
        requires
            old(self).failed < usize::MAX,
        ensures
            final(self).failed == old(self).failed + 1,
            final(self).succeeded == old(self).succeeded,
            final(self).skipped == old(self).skipped,
    {
        self.failed = self.failed + 1;
    }

    /// Counts one skipped album.
    pub fn record_skip(&mut self)
        requires
            old(self).skipped < usize::MAX,
        ensures
            final(self).skipped == old(self).skipped + 1,
            final(self).succeeded == old(self).succeeded,
            final(self).failed == old(self).failed,
    {
        self.skipped = self.skipped + 1;
    }

    /// The three counts, read once at the end for reporting.
    pub fn snapshot(&self) -> (r: (usize, usize, usize))
        ensures
            r.0 == self.succeeded,
            r.1 == self.failed,
            r.2 == self.skipped,
    {
        (self.succeeded, self.failed, self.skipped)
    }
}

/// Reduces the collected task outcomes into the final tally: successes and
/// failures together always account for every task.
pub fn tally_outcomes(outcomes: &Vec<bool>, skipped_albums: usize) -> (t: Tally)
    ensures
        t.succeeded == count_true(outcomes@),
        t.failed == outcomes@.len() - count_true(outcomes@),
        t.succeeded + t.failed == outcomes@.len(),
        t.skipped == skipped_albums,
{
    let mut succeeded: usize = 0;
    let mut failed: usize = 0;
    let mut k: usize = 0;
    while k < outcomes.len()
        invariant
            k <= outcomes@.len(),
            succeeded == count_true(outcomes@.take(k as int)),
            succeeded + failed == k,
        decreases outcomes@.len() - k,
    {
        proof {
            assert(outcomes@.take(k as int + 1).drop_last() =~= outcomes@.take(k as int));
            assert(outcomes@.take(k as int + 1).last() == outcomes@[k as int]);
            lemma_count_true_bounds(outcomes@.take(k as int));
        }
        if outcomes[k] {
            succeeded = succeeded + 1;
        } else {
            failed = failed + 1;
        }
        k = k + 1;
    }
    proof {
        assert(outcomes@.take(outcomes@.len() as int) =~= outcomes@);
    }
    Tally { succeeded, failed, skipped: skipped_albums }
}

/// The success count equals the multiset count of `true` among the
/// outcomes.
pub proof fn lemma_count_true_multiset(s: Seq<bool>)
    ensures
        count_true(s) == s.to_multiset().count(true),
    decreases s.len(),
{
    broadcast use group_to_multiset_ensures;

    if s.len() == 0 {
        assert(s.to_multiset() =~= Multiset::<bool>::empty());
    } else {
        lemma_count_true_multiset(s.drop_last());
        assert(s =~= s.drop_last().push(s.last()));
        assert(s.to_multiset() =~= s.drop_last().to_multiset().insert(s.last()));
    }
}

/// Scheduling-order independence: two runs whose per-task outcomes are a
/// rearrangement of one another report the same succeeded and failed
/// counts.
pub proof fn lemma_tally_order_independent(s1: Seq<bool>, s2: Seq<bool>)
    requires
        s1.to_multiset() == s2.to_multiset(),
    ensures
        count_true(s1) == count_true(s2),
        s1.len() - count_true(s1) == s2.len() - count_true(s2),
{
    broadcast use group_to_multiset_ensures;

    lemma_count_true_multiset(s1);
    lemma_count_true_multiset(s2);
    assert(s1.len() == s1.to_multiset().len());
    assert(s2.len() == s2.to_multiset().len());
}

} // verus!
