use robots_conformance::loader::{load_csv, validate_cases, LoadError};
use robots_conformance::model::TestCase;
use robots_conformance::names::{input_format, json_report_file, report_base_name, xml_report_file, InputFormat};

fn case(agent: &str, url: &str, expected: bool) -> TestCase {
    TestCase { user_agent: agent.to_string(), url: url.to_string(), expected_result: expected }
}

#[test]
fn csv_records_become_cases_in_order() {
    let text = "user_agent,url,expected_result\nbot-x,http://example.com/a,true\nbot-y,/b,NO\n";
    let cases = match load_csv(text.as_bytes()) {
        Ok(c) => c,
        Err(_) => panic!("load failed"),
    };
    assert_eq!(cases.len(), 2);
    assert_eq!(cases[0].user_agent, "bot-x");
    assert_eq!(cases[0].url, "http://example.com/a");
    assert!(cases[0].expected_result);
    assert_eq!(cases[1].user_agent, "bot-y");
    assert_eq!(cases[1].url, "/b");
    assert!(!cases[1].expected_result);
}

#[test]
fn lenient_booleans_are_accepted() {
    let text = "a,u,e\nb,/1,Yes\nb,/2,y\nb,/3,1\nb,/4,TRUE\nb,/5,t\nb,/6,False\nb,/7,n\nb,/8,0\nb,/9,no\nb,/10,F\n";
    let cases = match load_csv(text.as_bytes()) {
        Ok(c) => c,
        Err(_) => panic!("load failed"),
    };
    let got: Vec<bool> = cases.iter().map(|c| c.expected_result).collect();
    assert_eq!(got, vec![true, true, true, true, true, false, false, false, false, false]);
}

#[test]
fn unparsable_boolean_fails_the_whole_load() {
    let text = "a,u,e\nb,/1,true\nb,/2,maybe\nb,/3,false\n";
    assert!(matches!(load_csv(text.as_bytes()), Err(LoadError::BadBoolean { row: 1 })));
}

#[test]
fn empty_agent_or_url_is_rejected() {
    let text = "a,u,e\nb,/1,true\n,/2,true\n";
    assert!(matches!(load_csv(text.as_bytes()), Err(LoadError::EmptyField { row: 1 })));
    let text = "a,u,e\nb,,true\n";
    assert!(matches!(load_csv(text.as_bytes()), Err(LoadError::EmptyField { row: 0 })));
}

#[test]
fn records_of_other_width_are_rejected() {
    let text = "a,u\nb,/1\n";
    assert!(matches!(load_csv(text.as_bytes()), Err(LoadError::FieldCount { row: 0, found: 2 })));
}

#[test]
fn ragged_records_are_unreadable() {
    let text = "a,u,e\nb,/1,true,extra\n";
    assert!(matches!(load_csv(text.as_bytes()), Err(LoadError::Unreadable(_))));
}

#[test]
fn header_only_file_has_no_cases() {
    match load_csv("user_agent,url,expected_result\n".as_bytes()) {
        Ok(c) => assert!(c.is_empty()),
        Err(_) => panic!("load failed"),
    }
    match load_csv("".as_bytes()) {
        Ok(c) => assert!(c.is_empty()),
        Err(_) => panic!("load failed"),
    }
}

#[test]
fn structured_cases_are_validated() {
    let ok = validate_cases(vec![case("a", "/x", true), case("b", "/y", false)]);
    match ok {
        Ok(c) => {
            assert_eq!(c.len(), 2);
            assert_eq!(c[1].user_agent, "b");
        },
        Err(_) => panic!("validation failed"),
    }
    let bad = validate_cases(vec![case("a", "/x", true), case("b", "", false), case("", "/z", true)]);
    assert!(matches!(bad, Err(LoadError::EmptyField { row: 1 })));
}

#[test]
fn formats_follow_the_extension() {
    assert!(matches!(input_format("cases.csv"), Ok(InputFormat::Tabular)));
    assert!(matches!(input_format("dir/cases.json"), Ok(InputFormat::Structured)));
    assert!(matches!(input_format("cases.txt"), Err(LoadError::UnsupportedExtension)));
    assert!(matches!(input_format("csv"), Err(LoadError::UnsupportedExtension)));
}

#[test]
fn report_names_drop_the_extension() {
    assert_eq!(report_base_name("cases.csv"), "cases");
    assert_eq!(report_base_name("cases.json"), "cases");
    assert_eq!(report_base_name("cases.txt"), "cases.txt");
    assert_eq!(report_base_name(".csv"), "");
    assert_eq!(json_report_file("cases"), "cases.robots-test-results.json");
    assert_eq!(xml_report_file("cases"), "cases.robots-test-results.xml");
}
