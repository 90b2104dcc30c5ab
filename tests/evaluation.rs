use robots_conformance::engine::{distinct_agents, evaluate, evaluate_each, group_by_agent};
use robots_conformance::model::{TestCase, TestOutcome};
use robots_conformance::report::{json_report, junit_cases, test_case_name};
use robots_conformance::summary::{exit_status, summarize};

const POLICY: &str = "User-agent: bot-x\nDisallow: /private\n\nUser-agent: *\nDisallow: /admin\n";

fn case(agent: &str, url: &str, expected: bool) -> TestCase {
    TestCase { user_agent: agent.to_string(), url: url.to_string(), expected_result: expected }
}

fn run(cases: &Vec<TestCase>) -> Vec<TestOutcome> {
    match evaluate(cases, POLICY.as_bytes()) {
        Ok(o) => o,
        Err(e) => panic!("no matcher for {}", e.agent),
    }
}

fn key(o: &TestOutcome) -> (String, String, bool, bool) {
    (o.user_agent.clone(), o.url.clone(), o.expected_result, o.actual_result)
}

fn mixed_cases() -> Vec<TestCase> {
    vec![
        case("bot-x", "http://example.com/private/page", false),
        case("other", "http://example.com/admin", false),
        case("bot-x", "http://example.com/public", true),
        case("other", "http://example.com/private/page", true),
        case("bot-x", "http://example.com/admin", true),
        case("third", "/admin/x", true),
    ]
}

#[test]
fn end_to_end_example() {
    let policy = "User-agent: bot-x\nDisallow: /private\n";
    let cases = vec![
        case("bot-x", "http://example.com/private/page", false),
        case("bot-x", "http://example.com/public", false),
    ];
    let outcomes = match evaluate(&cases, policy.as_bytes()) {
        Ok(o) => o,
        Err(_) => panic!("no matcher"),
    };
    assert_eq!(outcomes.len(), 2);
    assert!(!outcomes[0].actual_result);
    assert!(outcomes[0].passed());
    assert!(outcomes[1].actual_result);
    assert!(!outcomes[1].passed());
    let summary = summarize(&outcomes, 5);
    assert_eq!((summary.total, summary.passed, summary.failed), (2, 1, 1));
    assert_eq!(summary.elapsed_ms, 5);
    assert_eq!(exit_status(&summary), 1);
}

#[test]
fn groups_keep_first_seen_order() {
    let cases = mixed_cases();
    let agents = distinct_agents(&cases);
    assert_eq!(agents, vec!["bot-x".to_string(), "other".to_string(), "third".to_string()]);
    let groups = group_by_agent(&cases);
    assert_eq!(groups.len(), 3);
    let urls: Vec<&str> = groups[0].cases.iter().map(|c| c.url.as_str()).collect();
    assert_eq!(urls, vec!["http://example.com/private/page", "http://example.com/public", "http://example.com/admin"]);
    assert_eq!(groups[1].agent, "other");
    assert_eq!(groups[1].cases.len(), 2);
    assert_eq!(groups[2].cases.len(), 1);
}

#[test]
fn one_outcome_per_case() {
    let cases = mixed_cases();
    assert_eq!(run(&cases).len(), cases.len());
}

#[test]
fn passed_means_decisions_agree() {
    for o in run(&mixed_cases()).iter() {
        assert_eq!(o.passed(), o.actual_result == o.expected_result);
    }
}

#[test]
fn grouped_outcomes_follow_the_groups() {
    let outcomes = run(&mixed_cases());
    let order: Vec<(&str, &str)> = outcomes.iter().map(|o| (o.user_agent.as_str(), o.url.as_str())).collect();
    assert_eq!(order, vec![
        ("bot-x", "http://example.com/private/page"),
        ("bot-x", "http://example.com/public"),
        ("bot-x", "http://example.com/admin"),
        ("other", "http://example.com/admin"),
        ("other", "http://example.com/private/page"),
        ("third", "/admin/x"),
    ]);
    let actual: Vec<bool> = outcomes.iter().map(|o| o.actual_result).collect();
    assert_eq!(actual, vec![false, true, true, false, true, false]);
}

#[test]
fn grouping_matches_ungrouped_evaluation() {
    let cases = mixed_cases();
    let mut grouped: Vec<_> = run(&cases).iter().map(key).collect();
    let mut single: Vec<_> = match evaluate_each(&cases, POLICY.as_bytes()) {
        Ok(o) => o.iter().map(key).collect(),
        Err(_) => panic!("no matcher"),
    };
    grouped.sort();
    single.sort();
    assert_eq!(grouped, single);
}

#[test]
fn summary_counts_add_up() {
    let outcomes = run(&mixed_cases());
    let s = summarize(&outcomes, 0);
    assert_eq!(s.total, 6);
    assert_eq!(s.passed, 5);
    assert_eq!(s.failed, 1);
    assert_eq!(s.total, s.passed + s.failed);
    assert!(!s.all_passed());
}

#[test]
fn empty_run_passes_with_empty_reports() {
    let cases: Vec<TestCase> = Vec::new();
    let outcomes = run(&cases);
    let s = summarize(&outcomes, 0);
    assert_eq!((s.total, s.passed, s.failed), (0, 0, 0));
    assert_eq!(exit_status(&s), 0);
    assert_eq!(json_report(&outcomes), "[]");
    assert!(junit_cases(&outcomes).is_empty());
}

#[test]
fn json_report_has_exact_layout() {
    let outcomes = vec![
        TestOutcome::new(&case("bot-x", "/a\"b", true), false),
        TestOutcome::new(&case("b\\y", "/c\n", false), false),
    ];
    let expected = "[\n  {\n    \"user_agent\": \"bot-x\",\n    \"url\": \"/a\\\"b\",\n    \"expected_result\": true,\n    \"result\": false\n  },\n  {\n    \"user_agent\": \"b\\\\y\",\n    \"url\": \"/c\\n\",\n    \"expected_result\": false,\n    \"result\": false\n  }\n]";
    assert_eq!(json_report(&outcomes), expected);
}

#[test]
fn json_escapes_control_characters() {
    let outcomes = vec![TestOutcome::new(&case("a\u{1}\u{1f}\t", "/\u{8}\u{c}\r", true), true)];
    let text = json_report(&outcomes);
    assert!(text.contains("\"user_agent\": \"a\\u0001\\u001f\\t\""));
    assert!(text.contains("\"url\": \"/\\b\\f\\r\""));
}

#[test]
fn json_report_round_trips() {
    let outcomes = run(&mixed_cases());
    let text = json_report(&outcomes);
    let parsed: serde_json::Value = match serde_json::from_str(&text) {
        Ok(v) => v,
        Err(e) => panic!("invalid JSON: {}", e),
    };
    let items = match parsed.as_array() {
        Some(a) => a.clone(),
        None => panic!("not an array"),
    };
    assert_eq!(items.len(), outcomes.len());
    for (item, o) in items.iter().zip(outcomes.iter()) {
        assert_eq!(item["user_agent"].as_str(), Some(o.user_agent.as_str()));
        assert_eq!(item["url"].as_str(), Some(o.url.as_str()));
        assert_eq!(item["expected_result"].as_bool(), Some(o.expected_result));
        assert_eq!(item["result"].as_bool(), Some(o.actual_result));
    }
}

#[test]
fn runs_are_repeatable() {
    let cases = mixed_cases();
    let first = run(&cases);
    let second = run(&cases);
    assert_eq!(json_report(&first), json_report(&second));
    let names1: Vec<String> = junit_cases(&first).into_iter().map(|c| c.name).collect();
    let names2: Vec<String> = junit_cases(&second).into_iter().map(|c| c.name).collect();
    assert_eq!(names1, names2);
    assert_eq!(exit_status(&summarize(&first, 1)), exit_status(&summarize(&second, 9)));
}

#[test]
fn junit_case_names_and_status() {
    let allowed = TestOutcome::new(&case("bot-x", "http://example.com/", true), true);
    let denied = TestOutcome::new(&case("bot-y", "/private", false), true);
    assert_eq!(test_case_name(&allowed), "Accessing URL: http://example.com/ as bot-x should be allowed");
    assert_eq!(test_case_name(&denied), "Accessing URL: /private as bot-y should be denied");
    let cases = junit_cases(&vec![allowed, denied]);
    assert_eq!(cases.len(), 2);
    assert!(cases[0].passed);
    assert!(!cases[1].passed);
    assert_eq!(cases[1].name, "Accessing URL: /private as bot-y should be denied");
}
