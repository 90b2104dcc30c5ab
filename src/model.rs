//! The test cases that go in and the outcomes that come out.
use vstd::prelude::*;

verus! {

/// What a test case is, mathematically.
pub struct CaseView {
    pub agent: Seq<char>,
    pub url: Seq<char>,
    pub expected: bool,
}

/// One expectation: `user_agent` fetching `url` should be allowed (`true`)
/// or denied (`false`).
pub struct TestCase {
    pub user_agent: String,
    pub url: String,
    pub expected_result: bool,
}

impl View for TestCase {
    type V = CaseView;

    open spec fn view(&self) -> CaseView {
        CaseView { agent: self.user_agent@, url: self.url@, expected: self.expected_result }
    }
}

impl TestCase {
    /// Agent and URL are both non-empty.
    pub open spec fn wf(&self) -> bool {
        self@.agent.len() > 0 && self@.url.len() > 0
    }

    pub fn duplicate(&self) -> (r: TestCase)
        ensures
            r@ == self@,
    {
        TestCase {
            user_agent: self.user_agent.clone(),
            url: self.url.clone(),
            expected_result: self.expected_result,
        }
    }
}

pub open spec fn cases_view(cs: Seq<TestCase>) -> Seq<CaseView> {
    cs.map_values(|c: TestCase| c@)
}

/// What an outcome is, mathematically.
pub struct OutcomeView {
    pub agent: Seq<char>,
    pub url: Seq<char>,
    pub expected: bool,
    pub actual: bool,
    pub passed: bool,
}

/// The outcome for a case whose matcher decided `actual`.
pub open spec fn outcome_of(c: CaseView, actual: bool) -> OutcomeView {
    OutcomeView {
        agent: c.agent,
        url: c.url,
        expected: c.expected,
        actual,
        passed: actual == c.expected,
    }
}

/// The recorded comparison between the expected and the actual decision for
/// one test case. Whether it passed is derived from the two decisions, so it
/// cannot disagree with them.
pub struct TestOutcome {
    pub user_agent: String,
    pub url: String,
    pub expected_result: bool,
    pub actual_result: bool,
}

impl View for TestOutcome {
    type V = OutcomeView;

    open spec fn view(&self) -> OutcomeView {
        OutcomeView {
            agent: self.user_agent@,
            url: self.url@,
            expected: self.expected_result,
            actual: self.actual_result,
            passed: self.actual_result == self.expected_result,
        }
    }
}

impl TestOutcome {
    /// The outcome of `case` when the matcher decided `actual`.
    pub fn new(case: &TestCase, actual: bool) -> (r: TestOutcome)
        ensures
            r@ == outcome_of(case@, actual),
    {
        TestOutcome {
            user_agent: case.user_agent.clone(),
            url: case.url.clone(),
            expected_result: case.expected_result,
            actual_result: actual,
        }
    }

    pub fn passed(&self) -> (r: bool)
        ensures
            r == self@.passed,
    {
        self.actual_result == self.expected_result
    }
}

/// Every outcome has passed exactly when its actual decision equals the
/// expected one.
pub proof fn outcome_passed_iff_agreeing(o: TestOutcome)
    ensures
        o@.passed == (o@.actual == o@.expected),
{
}

pub open spec fn outcomes_view(os: Seq<TestOutcome>) -> Seq<OutcomeView> {
    os.map_values(|o: TestOutcome| o@)
}

} // verus!
