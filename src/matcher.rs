//! The policy matcher: one per agent, built from the policy text, deciding
//! whether a URL may be fetched.
use vstd::prelude::*;
use texting_robots::Robot;

verus! {

#[verifier::external_type_specification]
#[verifier::external_body]
pub struct ExRobot(Robot);

/// Whether the policy text `policy` can be read into rules for `agent`.
pub uninterp spec fn robots_accepts(agent: Seq<char>, policy: Seq<u8>) -> bool;

/// Whether the rules that `policy` gives `agent` allow fetching `url`.
pub uninterp spec fn robots_allows(agent: Seq<char>, policy: Seq<u8>, url: Seq<char>) -> bool;

/// Relies on `texting_robots::Robot::new`: it parses `policy` and keeps the
/// rules for `agent`; whether it fails depends on these two alone.
#[verifier::external_body]
fn build_robot(agent: &str, policy: &[u8]) -> (r: Option<Robot>)
    ensures
        r is Some <==> robots_accepts(agent@, policy@),
{
    Robot::new(agent, policy).ok()
}

/// The rules of a policy for one agent. Only `Matcher::new` builds one, so
/// `robot` always holds the rules that `policy` gives `agent`.
pub struct Matcher {
    robot: Robot,
    agent: String,
    policy: Vec<u8>,
}

/// Relies on `texting_robots::Robot::allowed`: the decision of the rules
/// that `m.policy` gives `m.agent` for `url`.
#[verifier::external_body]
fn robot_allowed(m: &Matcher, url: &str) -> (r: bool)
    ensures
        r == robots_allows(m.agent(), m.policy(), url@),
{
    m.robot.allowed(url)
}

impl Matcher {
    pub closed spec fn agent(&self) -> Seq<char> {
        self.agent@
    }

    pub closed spec fn policy(&self) -> Seq<u8> {
        self.policy@
    }

    /// The matcher of `policy` for `agent`, or `None` where the policy cannot
    /// be read.
    pub fn new(agent: &String, policy: &[u8]) -> (r: Option<Matcher>)
        ensures
            r is Some <==> robots_accepts(agent@, policy@),
            r matches Some(m) ==> m.agent() == agent@ && m.policy() == policy@,
    {
        match build_robot(agent.as_str(), policy) {
            Some(robot) => Some(Matcher { robot, agent: agent.clone(), policy: vstd::slice::slice_to_vec(policy) }),
            None => None,
        }
    }

    /// Whether this matcher allows fetching `url`.
    pub fn allowed(&self, url: &String) -> (r: bool)
        ensures
            r == robots_allows(self.agent(), self.policy(), url@),
    {
        robot_allowed(self, url.as_str())
    }
}

} // verus!
