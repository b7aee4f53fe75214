//! The run summary: the one aggregate that many concurrent workers
//! write. Each worker appends one record per unit; the per-kind counters
//! are a function of the multiset of recorded outcomes, so they do not
//! depend on the order in which workers got to record.

use vstd::prelude::*;
use vstd::multiset::Multiset;

verus! {

/// The distinguishable kinds of one unit's outcome. None of them aborts
/// the overall run.
#[derive(Clone, Copy, Debug, PartialEq, Eq, Structural)]
pub enum OutcomeKind {
    /// The unit ran and its observed output matched the expectation.
    Passed,
    /// The unit ran and its output differed from the expectation.
    Mismatched,
    /// The fixture could not be built into a runnable unit.
    BuildFailure,
    /// The compiler refused the fixture.
    CompileFailure,
    /// The run crashed or could not be set up.
    Crashed,
    /// The unit was filtered out before any compiler ran.
    Ignored,
}

/// One recorded unit outcome.
pub struct TestRecord {
    /// The unit's identifier.
    pub ident: Vec<u8>,
    /// What became of the unit.
    pub kind: OutcomeKind,
    /// An optional diagnostic.
    pub diagnostic: Option<Vec<u8>>,
}

/// The outcome kinds of a record sequence, in record order.
pub open spec fn kinds_of(s: Seq<TestRecord>) -> Seq<OutcomeKind> {
    s.map_values(|r: TestRecord| r.kind)
}

/// How often a kind occurs among recorded outcomes: the count in the
/// multiset of kinds, so any two record orders with the same outcomes
/// agree on it.
pub open spec fn count_of(s: Seq<TestRecord>, k: OutcomeKind) -> nat {
    kinds_of(s).to_multiset().count(k)
}

/// The shared aggregate of a whole run: per-kind counters and the
/// per-unit records. Created once before scheduling, written by many
/// concurrent workers under exclusive access, read once at the end.
pub struct Summary {
    /// The per-unit records, in recording order.
    pub records: Vec<TestRecord>,
    /// How many units passed.
    pub passed: u64,
    /// How many units ran but mismatched the expectation.
    pub mismatched: u64,
    /// How many fixtures failed to build.
    pub build_failures: u64,
    /// How many fixtures the compiler refused.
    pub compile_failures: u64,
    /// How many runs crashed or failed setup.
    pub crashed: u64,
    /// How many units the filters skipped.
    pub ignored: u64,
}

impl Summary {
    /// Every counter equals its kind's count among the records, and the
    /// counters sum to the number of records.
    pub open spec fn wf(self) -> bool {
        &&& self.passed == count_of(self.records@, OutcomeKind::Passed)
        &&& self.mismatched == count_of(self.records@, OutcomeKind::Mismatched)
        &&& self.build_failures == count_of(self.records@, OutcomeKind::BuildFailure)
        &&& self.compile_failures == count_of(self.records@, OutcomeKind::CompileFailure)
        &&& self.crashed == count_of(self.records@, OutcomeKind::Crashed)
        &&& self.ignored == count_of(self.records@, OutcomeKind::Ignored)
        &&& self.passed + self.mismatched + self.build_failures + self.compile_failures
            + self.crashed + self.ignored == self.records@.len()
    }

    /// An empty summary.
    pub fn new() -> (r: Self)
        ensures
            r.wf(),
            r.records@.len() == 0,
    {
        let r = Summary {
            records: Vec::new(),
            passed: 0,
            mismatched: 0,
            build_failures: 0,
            compile_failures: 0,
            crashed: 0,
            ignored: 0,
        };
        proof {
            broadcast use vstd::seq_lib::group_to_multiset_ensures;

            assert(kinds_of(r.records@) =~= Seq::<OutcomeKind>::empty());
            assert(kinds_of(r.records@).to_multiset() =~= Multiset::<OutcomeKind>::empty());
        }
        r
    }

    /// Appends one unit's outcome and bumps its kind's counter.
    pub fn record(&mut self, ident: Vec<u8>, kind: OutcomeKind, diagnostic: Option<Vec<u8>>)
        requires
            old(self).wf(),
        ensures
            final(self).wf(),
            final(self).records@.len() == old(self).records@.len() + 1,
            final(self).records@ == old(self).records@.push(
                TestRecord { ident, kind, diagnostic },
            ),
            forall|k: OutcomeKind|
                count_of(final(self).records@, k) == count_of(old(self).records@, k) + (
                if k == kind {
                    1int
                } else {
                    0int
                }),
    {
        let rec = TestRecord { ident, kind, diagnostic };
        proof {
            broadcast use vstd::seq_lib::group_to_multiset_ensures;

            assert(kinds_of(self.records@.push(rec)) =~= kinds_of(self.records@).push(kind));
        }
        self.records.push(rec);
        proof {
            broadcast use vstd::seq_lib::group_to_multiset_ensures;

            assert(kinds_of(self.records@).to_multiset() =~= kinds_of(
                old(self).records@,
            ).to_multiset().insert(kind));
        }
        let n = self.records.len();
        proof {
            assert(n == old(self).records@.len() + 1);
            assert(old(self).passed <= old(self).records@.len());
            assert(old(self).mismatched <= old(self).records@.len());
            assert(old(self).build_failures <= old(self).records@.len());
            assert(old(self).compile_failures <= old(self).records@.len());
            assert(old(self).crashed <= old(self).records@.len());
            assert(old(self).ignored <= old(self).records@.len());
        }
        match kind {
            OutcomeKind::Passed => {
                self.passed = self.passed + 1;
            },
            OutcomeKind::Mismatched => {
                self.mismatched = self.mismatched + 1;
            },
            OutcomeKind::BuildFailure => {
                self.build_failures = self.build_failures + 1;
            },
            OutcomeKind::CompileFailure => {
                self.compile_failures = self.compile_failures + 1;
            },
            OutcomeKind::Crashed => {
                self.crashed = self.crashed + 1;
            },
            OutcomeKind::Ignored => {
                self.ignored = self.ignored + 1;
            },
        }
    }

    /// How many units were recorded in all.
    pub fn total(&self) -> (r: usize)
        ensures
            r == self.records@.len(),
    {
        self.records.len()
    }
}

/// Order independence of the aggregate: two record sequences holding the
/// same outcomes as a multiset — two interleavings of the same
/// concurrent workers — have the same length and agree on every
/// per-kind count.
pub proof fn lemma_counts_order_independent(a: Seq<TestRecord>, b: Seq<TestRecord>)
    requires
        kinds_of(a).to_multiset() == kinds_of(b).to_multiset(),
    ensures
        a.len() == b.len(),
        forall|k: OutcomeKind| count_of(a, k) == count_of(b, k),
{
    broadcast use vstd::seq_lib::group_to_multiset_ensures;

    assert(kinds_of(a).len() == a.len());
    assert(kinds_of(b).len() == b.len());
    assert(kinds_of(a).to_multiset().len() == kinds_of(a).len());
    assert(kinds_of(b).to_multiset().len() == kinds_of(b).len());
}

} // verus!
