//! Grouped evaluation: the cases are partitioned by agent, one matcher is
//! built per agent, and each group's cases are decided by that matcher.
use vstd::prelude::*;
use vstd::multiset::Multiset;
use crate::model::{CaseView, OutcomeView, TestCase, TestOutcome, cases_view, outcome_of, outcomes_view};
use crate::matcher::{Matcher, robots_accepts, robots_allows};

verus! {

pub open spec fn strings_view(v: Seq<String>) -> Seq<Seq<char>> {
    v.map_values(|s: String| s@)
}

/// The distinct agents of `s`, in the order of their first case.
pub open spec fn agents_in_order(s: Seq<CaseView>) -> Seq<Seq<char>>
    decreases s.len(),
{
    if s.len() == 0 {
        Seq::empty()
    } else {
        let prev = agents_in_order(s.drop_last());
        if prev.contains(s.last().agent) {
            prev
        } else {
            prev.push(s.last().agent)
        }
    }
}

pub open spec fn has_agent(a: Seq<char>) -> spec_fn(CaseView) -> bool {
    |c: CaseView| c.agent == a
}

/// The cases of `s` for agent `a`, in input order.
pub open spec fn cases_for(s: Seq<CaseView>, a: Seq<char>) -> Seq<CaseView> {
    s.filter(has_agent(a))
}

/// One group of the partition by agent.
pub struct GroupView {
    pub agent: Seq<char>,
    pub cases: Seq<CaseView>,
}

/// The stable partition of `s` by agent: groups in order of first
/// appearance, cases within a group in input order.
pub open spec fn groups_of(s: Seq<CaseView>) -> Seq<GroupView> {
    agents_in_order(s).map_values(|a: Seq<char>| GroupView { agent: a, cases: cases_for(s, a) })
}

/// The decision of the matcher for `agent` on `url`, recorded against `c`.
pub open spec fn judged_by(c: CaseView, agent: Seq<char>, policy: Seq<u8>) -> OutcomeView {
    outcome_of(c, robots_allows(agent, policy, c.url))
}

/// The outcome of `c` when decided by the matcher for its own agent.
pub open spec fn judged(c: CaseView, policy: Seq<u8>) -> OutcomeView {
    judged_by(c, c.agent, policy)
}

pub open spec fn judge(policy: Seq<u8>) -> spec_fn(CaseView) -> OutcomeView {
    |c: CaseView| judged(c, policy)
}

/// The outcomes of the group of agent `a`.
pub open spec fn group_outcomes(s: Seq<CaseView>, a: Seq<char>, policy: Seq<u8>) -> Seq<OutcomeView> {
    cases_for(s, a).map_values(judge(policy))
}

/// All outcomes, group after group.
pub open spec fn grouped_outcomes(s: Seq<CaseView>, policy: Seq<u8>) -> Seq<OutcomeView> {
    agents_in_order(s).map_values(|a: Seq<char>| group_outcomes(s, a, policy)).flatten()
}

/// A group of test cases that share one agent.
pub struct AgentGroup {
    pub agent: String,
    pub cases: Vec<TestCase>,
}

impl View for AgentGroup {
    type V = GroupView;

    open spec fn view(&self) -> GroupView {
        GroupView { agent: self.agent@, cases: cases_view(self.cases@) }
    }
}

/// A matcher could not be built for `agent`: the policy text cannot be read.
pub struct MatchError {
    pub agent: String,
}

/// The distinct agents of `cases`, in the order of their first case.
pub fn distinct_agents(cases: &Vec<TestCase>) -> (r: Vec<String>)
    ensures
        strings_view(r@) == agents_in_order(cases_view(cases@)),
{
    let ghost cv = cases_view(cases@);
    let mut agents: Vec<String> = Vec::new();
    let mut i: usize = 0;
    while i < cases.len()
        invariant
            i <= cases.len(),
            cv == cases_view(cases@),
            strings_view(agents@) == agents_in_order(cv.take(i as int)),
        decreases cases.len() - i,
    {
        let a = &cases[i].user_agent;
        let mut found = false;
        let mut k: usize = 0;
        while k < agents.len()
            invariant
                k <= agents.len(),
                found <==> exists|j: int| 0 <= j < k && (#[trigger] agents[j])@ == a@,
            decreases agents.len() - k,
        {
            if agents[k] == *a {
                found = true;
            }
            k = k + 1;
        }
        let ghost prev = strings_view(agents@);
        assert(cv.take(i + 1).drop_last() =~= cv.take(i as int));
        assert(cv.take(i + 1).last() == cv[i as int]);
        proof {
            if found {
                let j = choose|j: int| 0 <= j < agents.len() && (#[trigger] agents[j])@ == a@;
                assert(prev[j] == a@);
            } else {
                assert forall|j: int| 0 <= j < prev.len() implies prev[j] != a@ by {
                    assert(agents[j]@ == prev[j]);
                }
            }
        }
        if !found {
            agents.push(a.clone());
            assert(strings_view(agents@) =~= prev.push(a@));
        }
        i = i + 1;
    }
    assert(cv.take(cases.len() as int) =~= cv);
    agents
}

/// The cases of `cases` whose agent is `agent`, in input order.
pub fn cases_with_agent(cases: &Vec<TestCase>, agent: &String) -> (r: Vec<TestCase>)
    ensures
        cases_view(r@) == cases_for(cases_view(cases@), agent@),
{
    let ghost cv = cases_view(cases@);
    let mut out: Vec<TestCase> = Vec::new();
    let mut j: usize = 0;
    while j < cases.len()
        invariant
            j <= cases.len(),
            cv == cases_view(cases@),
            cases_view(out@) == cases_for(cv.take(j as int), agent@),
        decreases cases.len() - j,
    {
        proof {
            reveal(Seq::filter);
            assert(cv.take(j + 1).drop_last() =~= cv.take(j as int));
            assert(cv.take(j + 1).last() == cv[j as int]);
        }
        let ghost before = cases_view(out@);
        if cases[j].user_agent == *agent {
            out.push(cases[j].duplicate());
            assert(cases_view(out@) =~= before.push(cv[j as int]));
        }
        j = j + 1;
    }
    assert(cv.take(cases.len() as int) =~= cv);
    out
}

/// Partitions `cases` by agent: one group per distinct agent, in order of
/// first appearance, each holding that agent's cases in input order.
pub fn group_by_agent(cases: &Vec<TestCase>) -> (r: Vec<AgentGroup>)
    ensures
        r@.map_values(|g: AgentGroup| g@) == groups_of(cases_view(cases@)),
{
    let ghost cv = cases_view(cases@);
    let agents = distinct_agents(cases);
    let mut groups: Vec<AgentGroup> = Vec::new();
    let mut k: usize = 0;
    while k < agents.len()
        invariant
            k <= agents.len(),
            cv == cases_view(cases@),
            strings_view(agents@) == agents_in_order(cv),
            groups.len() == k,
            forall|i: int| 0 <= i < k ==> (#[trigger] groups[i])@ == groups_of(cv)[i],
        decreases agents.len() - k,
    {
        let members = cases_with_agent(cases, &agents[k]);
        assert(agents[k as int]@ == agents_in_order(cv)[k as int]);
        groups.push(AgentGroup { agent: agents[k].clone(), cases: members });
        k = k + 1;
    }
    assert(groups@.map_values(|g: AgentGroup| g@) =~= groups_of(cv));
    groups
}

/// Decides every case of a group with one matcher, built for `agent`.
/// Fails, naming the agent, where no matcher can be built.
pub fn evaluate_group(agent: &String, cases: &Vec<TestCase>, policy: &[u8]) -> (r: Result<Vec<TestOutcome>, MatchError>)
    ensures
        r is Ok <==> robots_accepts(agent@, policy@),
        r matches Err(e) ==> e.agent@ == agent@,
        r matches Ok(os) ==> outcomes_view(os@) == cases_view(cases@).map_values(
            |c: CaseView| judged_by(c, agent@, policy@),
        ),
{
    let matcher = match Matcher::new(agent, policy) {
        Some(m) => m,
        None => {
            return Err(MatchError { agent: agent.clone() });
        },
    };
    let ghost cv = cases_view(cases@);
    let mut outs: Vec<TestOutcome> = Vec::new();
    let mut i: usize = 0;
    while i < cases.len()
        invariant
            i <= cases.len(),
            cv == cases_view(cases@),
            matcher.agent() == agent@ && matcher.policy() == policy@,
            outs.len() == i,
            forall|j: int| 0 <= j < i ==> (#[trigger] outs[j])@ == judged_by(cv[j], agent@, policy@),
        decreases cases.len() - i,
    {
        let actual = matcher.allowed(&cases[i].url);
        outs.push(TestOutcome::new(&cases[i], actual));
        i = i + 1;
    }
    assert(outcomes_view(outs@) =~= cv.map_values(|c: CaseView| judged_by(c, agent@, policy@)));
    Ok(outs)
}

pub open spec fn has_other_agent(a: Seq<char>) -> spec_fn(CaseView) -> bool {
    |c: CaseView| c.agent != a
}

/// Agents are listed once each; every case's agent is listed; every listed
/// agent has a case.
proof fn lemma_agents_in_order(s: Seq<CaseView>)
    ensures
        agents_in_order(s).no_duplicates(),
        forall|i: int| 0 <= i < s.len() ==> agents_in_order(s).contains(#[trigger] s[i].agent),
        forall|k: int|
            0 <= k < agents_in_order(s).len() ==> exists|i: int|
                0 <= i < s.len() && s[i].agent == #[trigger] agents_in_order(s)[k],
    decreases s.len(),
{
    if s.len() > 0 {
        let t = s.drop_last();
        lemma_agents_in_order(t);
        let prev = agents_in_order(t);
        let cur = agents_in_order(s);
        assert forall|i: int| 0 <= i < s.len() implies cur.contains(#[trigger] s[i].agent) by {
            if i < t.len() {
                assert(t[i] == s[i]);
                let j = choose|j: int| 0 <= j < prev.len() && prev[j] == t[i].agent;
                assert(cur[j] == prev[j]);
            } else if !prev.contains(s.last().agent) {
                assert(cur[prev.len() as int] == s.last().agent);
            }
        }
        assert forall|k: int| 0 <= k < cur.len() implies exists|i: int|
            0 <= i < s.len() && s[i].agent == #[trigger] cur[k] by {
            if k < prev.len() {
                assert(cur[k] == prev[k]);
                let i = choose|i: int| 0 <= i < t.len() && t[i].agent == prev[k];
                assert(s[i] == t[i]);
            } else {
                assert(s[s.len() - 1].agent == cur[k]);
            }
        }
    }
}

/// Splitting `s` into the cases of agent `a` and the rest keeps every case.
proof fn lemma_split_by_agent(s: Seq<CaseView>, a: Seq<char>, f: spec_fn(CaseView) -> OutcomeView)
    ensures
        s.map_values(f).to_multiset() == s.filter(has_agent(a)).map_values(f).to_multiset().add(
            s.filter(has_other_agent(a)).map_values(f).to_multiset(),
        ),
    decreases s.len(),
{
    reveal(Seq::filter);
    broadcast use vstd::seq_lib::group_to_multiset_ensures;
    if s.len() == 0 {
        assert(s.map_values(f) =~= Seq::empty());
        assert(s.filter(has_agent(a)).map_values(f) =~= Seq::empty());
        assert(s.filter(has_other_agent(a)).map_values(f) =~= Seq::empty());
        assert(s.map_values(f).to_multiset() =~= Multiset::empty());
    } else {
        let t = s.drop_last();
        let x = s.last();
        lemma_split_by_agent(t, a, f);
        assert(s.map_values(f) =~= t.map_values(f).push(f(x)));
        if x.agent == a {
            assert(s.filter(has_agent(a)).map_values(f) =~= t.filter(has_agent(a)).map_values(f).push(f(x)));
        } else {
            assert(s.filter(has_other_agent(a)).map_values(f) =~= t.filter(has_other_agent(a)).map_values(f).push(f(x)));
        }
        assert(s.map_values(f).to_multiset() =~= s.filter(has_agent(a)).map_values(f).to_multiset().add(
            s.filter(has_other_agent(a)).map_values(f).to_multiset(),
        ));
    }
}

/// Removing another agent's cases first does not change the cases of `b`.
proof fn lemma_filter_other(s: Seq<CaseView>, a: Seq<char>, b: Seq<char>)
    requires
        a != b,
    ensures
        s.filter(has_other_agent(a)).filter(has_agent(b)) == s.filter(has_agent(b)),
    decreases s.len(),
{
    reveal(Seq::filter);
    if s.len() > 0 {
        let t = s.drop_last();
        let x = s.last();
        lemma_filter_other(t, a, b);
        let u = s.filter(has_other_agent(a));
        if x.agent != a {
            assert(u.drop_last() =~= t.filter(has_other_agent(a)));
            assert(u.last() == x);
        }
    }
}

proof fn lemma_groups_keep_cases(s: Seq<CaseView>, agents: Seq<Seq<char>>, policy: Seq<u8>)
    requires
        agents.no_duplicates(),
        forall|i: int| 0 <= i < s.len() ==> agents.contains(#[trigger] s[i].agent),
    ensures
        agents.map_values(|a: Seq<char>| group_outcomes(s, a, policy)).flatten().to_multiset()
            == s.map_values(judge(policy)).to_multiset(),
    decreases agents.len(),
{
    broadcast use vstd::seq_lib::group_to_multiset_ensures;
    let g = |a: Seq<char>| group_outcomes(s, a, policy);
    if agents.len() == 0 {
        if s.len() > 0 {
            assert(agents.contains(s[0].agent));
        }
        assert(agents.map_values(g) =~= Seq::empty());
        assert(s.map_values(judge(policy)) =~= Seq::empty());
    } else {
        let a = agents.last();
        let rest = agents.drop_last();
        let s2 = s.filter(has_other_agent(a));
        let g2 = |b: Seq<char>| group_outcomes(s2, b, policy);
        assert forall|i: int| 0 <= i < s2.len() implies rest.contains(#[trigger] s2[i].agent) by {
            s.lemma_filter_pred(has_other_agent(a), i);
            assert(s2.contains(s2[i]));
            s.lemma_filter_contains_rev(has_other_agent(a), s2[i]);
            let j = choose|j: int| 0 <= j < s.len() && s[j] == s2[i];
            assert(agents.contains(s[j].agent));
            let m = choose|m: int| 0 <= m < agents.len() && agents[m] == s[j].agent;
            assert(m != agents.len() - 1);
            assert(rest[m] == agents[m]);
        }
        assert(rest.no_duplicates());
        lemma_groups_keep_cases(s2, rest, policy);
        assert forall|m: int| 0 <= m < rest.len() implies #[trigger] rest.map_values(g)[m] == rest.map_values(g2)[m] by {
            assert(rest[m] == agents[m]);
            lemma_filter_other(s, a, rest[m]);
        }
        assert(rest.map_values(g) =~= rest.map_values(g2));
        assert(agents.map_values(g) =~= rest.map_values(g).push(g(a)));
        rest.map_values(g).lemma_flatten_push(g(a));
        vstd::seq_lib::lemma_multiset_commutative(rest.map_values(g).flatten(), g(a));
        lemma_split_by_agent(s, a, judge(policy));
        assert(agents.map_values(g).flatten().to_multiset() =~= s.map_values(judge(policy)).to_multiset());
    }
}

/// Grouping by agent is only an optimisation: the outcomes of the groups,
/// flattened, are as a multiset the outcomes of deciding each case on its
/// own; in particular, there are as many as there are cases.
pub proof fn grouping_keeps_outcomes(s: Seq<CaseView>, policy: Seq<u8>)
    ensures
        grouped_outcomes(s, policy).to_multiset() == s.map_values(judge(policy)).to_multiset(),
        grouped_outcomes(s, policy).len() == s.len(),
{
    broadcast use vstd::seq_lib::group_to_multiset_ensures;
    lemma_agents_in_order(s);
    lemma_groups_keep_cases(s, agents_in_order(s), policy);
    assert(grouped_outcomes(s, policy).to_multiset().len() == grouped_outcomes(s, policy).len());
    assert(s.map_values(judge(policy)).to_multiset().len() == s.len());
}

/// The first agent, in order of first appearance, whose matcher cannot be
/// built is `a`.
pub open spec fn first_refused_agent(s: Seq<CaseView>, policy: Seq<u8>, a: Seq<char>) -> bool {
    let agents = agents_in_order(s);
    exists|k: int|
        0 <= k < agents.len() && #[trigger] agents[k] == a && !robots_accepts(a, policy) && (forall|j: int|
            0 <= j < k ==> robots_accepts(#[trigger] agents[j], policy))
}

/// Evaluates every case: one matcher per distinct agent, each group's cases
/// decided in input order by its matcher, the groups' outcomes concatenated
/// in the order of the groups. Where a matcher cannot be built the whole run
/// stops with the first such agent.
pub fn evaluate(cases: &Vec<TestCase>, policy: &[u8]) -> (r: Result<Vec<TestOutcome>, MatchError>)
    ensures
        r is Ok <==> forall|i: int| 0 <= i < cases.len() ==> robots_accepts(#[trigger] cases[i].user_agent@, policy@),
        r matches Err(e) ==> first_refused_agent(cases_view(cases@), policy@, e.agent@),
        r matches Ok(os) ==> outcomes_view(os@) == grouped_outcomes(cases_view(cases@), policy@),
        r matches Ok(os) ==> os.len() == cases.len(),
{
    let ghost cv = cases_view(cases@);
    let ghost agents = agents_in_order(cv);
    let ghost g = |a: Seq<char>| group_outcomes(cv, a, policy@);
    proof {
        lemma_agents_in_order(cv);
        grouping_keeps_outcomes(cv, policy@);
    }
    let groups = group_by_agent(cases);
    assert(groups@.map_values(|g: AgentGroup| g@).len() == groups.len());
    let mut outs: Vec<TestOutcome> = Vec::new();
    let mut k: usize = 0;
    while k < groups.len()
        invariant
            k <= groups.len(),
            cv == cases_view(cases@),
            agents == agents_in_order(cv),
            groups@.map_values(|g: AgentGroup| g@) == groups_of(cv),
            groups.len() == agents.len(),
            g == (|a: Seq<char>| group_outcomes(cv, a, policy@)),
            outcomes_view(outs@) == agents.take(k as int).map_values(g).flatten(),
            forall|j: int| 0 <= j < k ==> robots_accepts(#[trigger] agents[j], policy@),
        decreases groups.len() - k,
    {
        let group = &groups[k];
        assert(group@ == groups_of(cv)[k as int]);
        let ghost a = agents[k as int];
        assert(group@.agent == a && group@.cases == cases_for(cv, a));
        match evaluate_group(&group.agent, &group.cases, policy) {
            Err(e) => {
                assert(agents[k as int] == e.agent@);
                proof {
                    lemma_agents_in_order(cv);
                    let i = choose|i: int| 0 <= i < cv.len() && cv[i].agent == #[trigger] agents[k as int];
                    assert(cases[i].user_agent@ == cv[i].agent);
                }
                return Err(e);
            },
            Ok(mut group_outs) => {
                assert(outcomes_view(group_outs@) =~= g(a)) by {
                    assert(outcomes_view(group_outs@).len() == g(a).len());
                    assert forall|i: int| 0 <= i < group_outs.len() implies #[trigger] outcomes_view(group_outs@)[i] == g(a)[i] by {
                        cv.lemma_filter_pred(has_agent(a), i);
                    }
                }
                let ghost before = outcomes_view(outs@);
                outs.append(&mut group_outs);
                assert(outcomes_view(outs@) =~= before + g(a));
                assert(agents.take(k + 1).map_values(g) =~= agents.take(k as int).map_values(g).push(g(a)));
                proof {
                    agents.take(k as int).map_values(g).lemma_flatten_push(g(a));
                }
            },
        }
        k = k + 1;
    }
    assert(agents.take(k as int) =~= agents);
    assert forall|i: int| 0 <= i < cases.len() implies robots_accepts(#[trigger] cases[i].user_agent@, policy@) by {
        assert(cv[i].agent == cases[i].user_agent@);
        assert(agents.contains(cv[i].agent));
    }
    Ok(outs)
}

/// Evaluates every case on its own, with a matcher built for that case
/// alone, in input order: what grouping saves work over. Stops at the first
/// case whose matcher cannot be built.
pub fn evaluate_each(cases: &Vec<TestCase>, policy: &[u8]) -> (r: Result<Vec<TestOutcome>, MatchError>)
    ensures
        r is Ok <==> forall|i: int| 0 <= i < cases.len() ==> robots_accepts(#[trigger] cases[i].user_agent@, policy@),
        r matches Err(e) ==> exists|k: int|
            0 <= k < cases.len() && #[trigger] cases[k].user_agent@ == e.agent@ && !robots_accepts(e.agent@, policy@)
                && (forall|j: int| 0 <= j < k ==> robots_accepts(#[trigger] cases[j].user_agent@, policy@)),
        r matches Ok(os) ==> outcomes_view(os@) == cases_view(cases@).map_values(judge(policy@)),
{
    let ghost cv = cases_view(cases@);
    let mut outs: Vec<TestOutcome> = Vec::new();
    let mut i: usize = 0;
    while i < cases.len()
        invariant
            i <= cases.len(),
            cv == cases_view(cases@),
            outs.len() == i,
            forall|j: int| 0 <= j < i ==> robots_accepts(#[trigger] cases[j].user_agent@, policy@),
            forall|j: int| 0 <= j < i ==> (#[trigger] outs[j])@ == judged(cv[j], policy@),
        decreases cases.len() - i,
    {
        let matcher = match Matcher::new(&cases[i].user_agent, policy) {
            Some(m) => m,
            None => {
                return Err(MatchError { agent: cases[i].user_agent.clone() });
            },
        };
        let actual = matcher.allowed(&cases[i].url);
        outs.push(TestOutcome::new(&cases[i], actual));
        i = i + 1;
    }
    assert(outcomes_view(outs@) =~= cv.map_values(judge(policy@)));
    Ok(outs)
}

} // verus!
