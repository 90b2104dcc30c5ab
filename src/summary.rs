//! Aggregate counts over a run's outcomes, and the exit status they call for.
use vstd::prelude::*;
use crate::model::{CaseView, OutcomeView, TestOutcome, outcomes_view};
use crate::engine::{grouped_outcomes, grouping_keeps_outcomes, judge};
use crate::report::{case_name, json_text};

verus! {

/// How many of `s` passed.
pub open spec fn passed_count(s: Seq<OutcomeView>) -> nat
    decreases s.len(),
{
    if s.len() == 0 {
        0
    } else {
        passed_count(s.drop_last()) + if s.last().passed {
            1nat
        } else {
            0nat
        }
    }
}

/// Counts over the complete outcome collection, and the run's wall-clock
/// time.
pub struct RunSummary {
    pub total: usize,
    pub passed: usize,
    pub failed: usize,
    pub elapsed_ms: u64,
}

impl RunSummary {
    pub open spec fn wf(&self) -> bool {
        self.total == self.passed + self.failed
    }

    /// Whether the run succeeded: no case failed.
    pub fn all_passed(&self) -> (r: bool)
        ensures
            r == (self.failed == 0),
    {
        self.failed == 0
    }
}

proof fn lemma_passed_count_bound(s: Seq<OutcomeView>)
    ensures
        passed_count(s) <= s.len(),
    decreases s.len(),
{
    if s.len() > 0 {
        lemma_passed_count_bound(s.drop_last());
    }
}

/// The counts of `outcomes`: all of them, those that passed, the rest.
pub fn summarize(outcomes: &Vec<TestOutcome>, elapsed_ms: u64) -> (r: RunSummary)
    ensures
        r.total == outcomes.len(),
        r.passed == passed_count(outcomes_view(outcomes@)),
        r.failed == r.total - r.passed,
        r.wf(),
        r.elapsed_ms == elapsed_ms,
{
    let ghost ov = outcomes_view(outcomes@);
    let mut passed: usize = 0;
    let mut i: usize = 0;
    while i < outcomes.len()
        invariant
            i <= outcomes.len(),
            ov == outcomes_view(outcomes@),
            passed == passed_count(ov.take(i as int)),
            passed <= i,
        decreases outcomes.len() - i,
    {
        assert(ov.take(i + 1).drop_last() =~= ov.take(i as int));
        assert(ov.take(i + 1).last() == outcomes[i as int]@);
        if outcomes[i].passed() {
            passed = passed + 1;
        }
        i = i + 1;
    }
    assert(ov.take(i as int) =~= ov);
    RunSummary { total: outcomes.len(), passed, failed: outcomes.len() - passed, elapsed_ms }
}

/// The process exit status for a run: 0 when every case passed, else 1.
pub fn exit_status(summary: &RunSummary) -> (r: i32)
    ensures
        r == 0 <==> summary.failed == 0,
        r == 0 || r == 1,
{
    if summary.failed == 0 {
        0
    } else {
        1
    }
}

proof fn lemma_passed_count_remove(s: Seq<OutcomeView>, i: int)
    requires
        0 <= i < s.len(),
    ensures
        passed_count(s) == passed_count(s.remove(i)) + if s[i].passed {
            1nat
        } else {
            0nat
        },
    decreases s.len(),
{
    if i == s.len() - 1 {
        assert(s.remove(i) =~= s.drop_last());
    } else {
        lemma_passed_count_remove(s.drop_last(), i);
        assert(s.remove(i).drop_last() =~= s.drop_last().remove(i));
        assert(s.remove(i).last() == s.last());
    }
}

/// The counts of a run do not depend on the order of its outcomes: two
/// collections holding the same outcomes, in any order, have as many
/// outcomes and as many that passed.
pub proof fn counts_ignore_order(a: Seq<OutcomeView>, b: Seq<OutcomeView>)
    requires
        a.to_multiset() == b.to_multiset(),
    ensures
        a.len() == b.len(),
        passed_count(a) == passed_count(b),
    decreases a.len(),
{
    broadcast use vstd::seq_lib::group_to_multiset_ensures;
    a.to_multiset_ensures();
    b.to_multiset_ensures();
    if a.len() > 0 {
        let x = a.last();
        let rest = a.drop_last();
        assert(a =~= rest.push(x));
        assert(a.to_multiset().count(x) > 0);
        assert(b.contains(x));
        let j = choose|j: int| 0 <= j < b.len() && b[j] == x;
        assert(b.remove(j).to_multiset() =~= rest.to_multiset());
        counts_ignore_order(rest, b.remove(j));
        lemma_passed_count_remove(b, j);
        assert(passed_count(a) == passed_count(rest) + if x.passed {
            1nat
        } else {
            0nat
        });
    }
}

/// A grouped run and a run that decides each case on its own have the same
/// counts.
pub proof fn grouped_counts_as_ungrouped(s: Seq<CaseView>, policy: Seq<u8>)
    ensures
        grouped_outcomes(s, policy).len() == s.len(),
        passed_count(grouped_outcomes(s, policy)) == passed_count(s.map_values(judge(policy))),
{
    grouping_keeps_outcomes(s, policy);
    counts_ignore_order(grouped_outcomes(s, policy), s.map_values(judge(policy)));
}

/// Running twice on the same cases and policy gives the same outcomes, so
/// the same JSON report, the same JUnit case names and the same counts.
pub proof fn repeated_runs_agree(
    cases: Seq<CaseView>,
    policy: Seq<u8>,
    first: Seq<OutcomeView>,
    second: Seq<OutcomeView>,
)
    requires
        first == grouped_outcomes(cases, policy),
        second == grouped_outcomes(cases, policy),
    ensures
        json_text(first) == json_text(second),
        first.map_values(|o: OutcomeView| case_name(o)) == second.map_values(|o: OutcomeView| case_name(o)),
        first.len() == second.len(),
        passed_count(first) == passed_count(second),
{
}

} // verus!
