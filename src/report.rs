//! The two reports of a run: a pretty-printed JSON array of outcome records,
//! and the cases of a JUnit-style suite. Both keep the order of the outcomes
//! as received.
use vstd::prelude::*;
use crate::model::{OutcomeView, TestOutcome, outcomes_view};

verus! {

/// Lower-case hexadecimal digit of `n`.
pub open spec fn hex_digit(n: u32) -> Seq<char> {
    "0123456789abcdef"@.subrange(n as int, n as int + 1)
}

/// How one character stands inside a JSON string.
pub open spec fn escape_char(c: char) -> Seq<char> {
    if c == '"' {
        "\\\""@
    } else if c == '\\' {
        "\\\\"@
    } else if c == '\n' {
        "\\n"@
    } else if c == '\r' {
        "\\r"@
    } else if c == '\t' {
        "\\t"@
    } else if c == '\u{8}' {
        "\\b"@
    } else if c == '\u{c}' {
        "\\f"@
    } else if (c as u32) < 16 {
        "\\u000"@ + hex_digit(c as u32)
    } else if (c as u32) < 32 {
        "\\u001"@ + hex_digit((c as u32 - 16) as u32)
    } else {
        seq![c]
    }
}

/// The body of a JSON string holding `s`.
pub open spec fn escaped(s: Seq<char>) -> Seq<char>
    decreases s.len(),
{
    if s.len() == 0 {
        Seq::empty()
    } else {
        escaped(s.drop_last()) + escape_char(s.last())
    }
}

pub open spec fn bool_text(b: bool) -> Seq<char> {
    if b {
        "true"@
    } else {
        "false"@
    }
}

/// The JSON record of one outcome, indented as an array element.
pub open spec fn json_object(o: OutcomeView) -> Seq<char> {
    "  {\n    \"user_agent\": \""@ + escaped(o.agent) + "\",\n    \"url\": \""@ + escaped(o.url)
        + "\",\n    \"expected_result\": "@ + bool_text(o.expected) + ",\n    \"result\": "@
        + bool_text(o.actual) + "\n  }"@
}

/// The records of `s`, separated by commas and line breaks.
pub open spec fn json_objects(s: Seq<OutcomeView>) -> Seq<char>
    decreases s.len(),
{
    if s.len() == 0 {
        Seq::empty()
    } else if s.len() == 1 {
        json_object(s[0])
    } else {
        json_objects(s.drop_last()) + ",\n"@ + json_object(s.last())
    }
}

/// The JSON report of `s`: `[]` when empty, else one record per line group.
pub open spec fn json_text(s: Seq<OutcomeView>) -> Seq<char> {
    if s.len() == 0 {
        "[]"@
    } else {
        "[\n"@ + json_objects(s) + "\n]"@
    }
}

fn hex_digit_str(n: u32) -> (r: &'static str)
    requires
        n < 16,
    ensures
        r@ == hex_digit(n),
{
    proof {
        reveal_strlit("0123456789abcdef");
    }
    "0123456789abcdef".substring_char(n as usize, n as usize + 1)
}

/// Appends `c` as it stands inside a JSON string.
fn push_escaped_char(out: &mut String, s: &str, i: usize)
    requires
        i < s@.len() <= usize::MAX,
    ensures
        final(out)@ == old(out)@ + escape_char(s@[i as int]),
{
    let c = s.get_char(i);
    let code = c as u32;
    if c == '"' {
        out.append("\\\"");
    } else if c == '\\' {
        out.append("\\\\");
    } else if c == '\n' {
        out.append("\\n");
    } else if c == '\r' {
        out.append("\\r");
    } else if c == '\t' {
        out.append("\\t");
    } else if c == '\u{8}' {
        out.append("\\b");
    } else if c == '\u{c}' {
        out.append("\\f");
    } else if code < 16 {
        out.append("\\u000");
        out.append(hex_digit_str(code));
    } else if code < 32 {
        out.append("\\u001");
        out.append(hex_digit_str(code - 16));
    } else {
        let one = s.substring_char(i, i + 1);
        assert(one@ =~= seq![c]);
        out.append(one);
    }
}

/// Appends the body of a JSON string holding `s`.
fn push_escaped(out: &mut String, s: &str)
    ensures
        final(out)@ == old(out)@ + escaped(s@),
{
    let ghost start = out@;
    let n = s.unicode_len();
    let mut i: usize = 0;
    while i < n
        invariant
            i <= n,
            n == s@.len(),
            out@ == start + escaped(s@.subrange(0, i as int)),
        decreases n - i,
    {
        push_escaped_char(out, s, i);
        assert(s@.subrange(0, i + 1).drop_last() =~= s@.subrange(0, i as int));
        i = i + 1;
    }
    assert(s@.subrange(0, n as int) =~= s@);
}

fn bool_str(b: bool) -> (r: &'static str)
    ensures
        r@ == bool_text(b),
{
    if b {
        "true"
    } else {
        "false"
    }
}

fn push_json_object(out: &mut String, o: &TestOutcome)
    ensures
        final(out)@ == old(out)@ + json_object(o@),
{
    let ghost start = out@;
    out.append("  {\n    \"user_agent\": \"");
    push_escaped(out, o.user_agent.as_str());
    out.append("\",\n    \"url\": \"");
    push_escaped(out, o.url.as_str());
    out.append("\",\n    \"expected_result\": ");
    out.append(bool_str(o.expected_result));
    out.append(",\n    \"result\": ");
    out.append(bool_str(o.actual_result));
    out.append("\n  }");
    assert(out@ =~= start + json_object(o@));
}

/// The JSON report of `outcomes`, in their order.
pub fn json_report(outcomes: &Vec<TestOutcome>) -> (r: String)
    ensures
        r@ == json_text(outcomes_view(outcomes@)),
{
    let ghost ov = outcomes_view(outcomes@);
    if outcomes.len() == 0 {
        return String::from_str("[]");
    }
    let mut out = String::from_str("[\n");
    let mut i: usize = 0;
    while i < outcomes.len()
        invariant
            i <= outcomes.len(),
            outcomes.len() > 0,
            ov == outcomes_view(outcomes@),
            out@ == "[\n"@ + json_objects(ov.take(i as int)),
        decreases outcomes.len() - i,
    {
        let ghost before = out@;
        assert(ov.take(i + 1).drop_last() =~= ov.take(i as int));
        assert(ov.take(i + 1).last() == outcomes[i as int]@);
        if i > 0 {
            out.append(",\n");
        } else {
            assert(ov.take(1)[0] == outcomes[0]@);
        }
        push_json_object(&mut out, &outcomes[i]);
        assert(out@ =~= "[\n"@ + json_objects(ov.take(i + 1)));
        i = i + 1;
    }
    assert(ov.take(i as int) =~= ov);
    out.append("\n]");
    out
}

/// The name of an outcome's case in the JUnit-style report.
pub open spec fn case_name(o: OutcomeView) -> Seq<char> {
    "Accessing URL: "@ + o.url + " as "@ + o.agent + " should be "@ + if o.expected {
        "allowed"@
    } else {
        "denied"@
    }
}

/// The name of `outcome`'s case in the JUnit-style report.
pub fn test_case_name(outcome: &TestOutcome) -> (r: String)
    ensures
        r@ == case_name(outcome@),
{
    let mut name = String::from_str("Accessing URL: ");
    name.append(outcome.url.as_str());
    name.append(" as ");
    name.append(outcome.user_agent.as_str());
    name.append(" should be ");
    if outcome.expected_result {
        name.append("allowed");
    } else {
        name.append("denied");
    }
    name
}

/// One case of the JUnit-style suite: its name, and whether it succeeded.
pub struct ReportCase {
    pub name: String,
    pub passed: bool,
}

/// The cases of the JUnit-style suite, one per outcome, in order.
pub fn junit_cases(outcomes: &Vec<TestOutcome>) -> (r: Vec<ReportCase>)
    ensures
        r.len() == outcomes.len(),
        forall|i: int| 0 <= i < r.len() ==> (#[trigger] r[i]).name@ == case_name(outcomes[i]@)
            && r[i].passed == outcomes[i]@.passed,
{
    let mut cases: Vec<ReportCase> = Vec::new();
    let mut i: usize = 0;
    while i < outcomes.len()
        invariant
            i <= outcomes.len(),
            cases.len() == i,
            forall|j: int| 0 <= j < i ==> (#[trigger] cases[j]).name@ == case_name(outcomes[j]@)
                && cases[j].passed == outcomes[j]@.passed,
        decreases outcomes.len() - i,
    {
        let name = test_case_name(&outcomes[i]);
        cases.push(ReportCase { name, passed: outcomes[i].passed() });
        i = i + 1;
    }
    cases
}

} // verus!
