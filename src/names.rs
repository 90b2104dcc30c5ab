//! File names: which input format a test-case file holds, and where the
//! reports of a run go.
use vstd::prelude::*;
use crate::loader::LoadError;

verus! {

pub open spec fn ends_with(s: Seq<char>, suffix: Seq<char>) -> bool {
    s.len() >= suffix.len() && s.subrange(s.len() - suffix.len(), s.len() as int) == suffix
}

/// Whether `s` ends with `suffix`.
pub fn has_suffix(s: &str, suffix: &str) -> (r: bool)
    ensures
        r == ends_with(s@, suffix@),
{
    let n = s.unicode_len();
    let m = suffix.unicode_len();
    if m > n {
        return false;
    }
    let mut j: usize = 0;
    while j < m
        invariant
            j <= m <= n,
            n == s@.len(),
            m == suffix@.len(),
            forall|k: int| 0 <= k < j ==> s@[n - m + k] == #[trigger] suffix@[k],
        decreases m - j,
    {
        if s.get_char(n - m + j) != suffix.get_char(j) {
            assert(s@.subrange(n - m, n as int)[j as int] != suffix@[j as int]);
            return false;
        }
        j = j + 1;
    }
    assert(s@.subrange(n - m, n as int) =~= suffix@);
    true
}

/// The encodings of a test-case file.
#[derive(PartialEq, Eq, Structural, Clone, Copy, Debug)]
pub enum InputFormat {
    /// Records of three fields, after a header record.
    Tabular,
    /// An array of objects with `user_agent`, `url` and `expected_result`.
    Structured,
}

/// The format that a file name's extension calls for.
pub open spec fn format_of(name: Seq<char>) -> Option<InputFormat> {
    if ends_with(name, ".csv"@) {
        Some(InputFormat::Tabular)
    } else if ends_with(name, ".json"@) {
        Some(InputFormat::Structured)
    } else {
        None
    }
}

/// The format of the file named `name`; an error for an extension that is
/// not recognized.
pub fn input_format(name: &str) -> (r: Result<InputFormat, LoadError>)
    ensures
        format_of(name@) matches Some(f) ==> r == Ok::<InputFormat, LoadError>(f),
        format_of(name@) is None ==> r matches Err(LoadError::UnsupportedExtension),
{
    if has_suffix(name, ".csv") {
        Ok(InputFormat::Tabular)
    } else if has_suffix(name, ".json") {
        Ok(InputFormat::Structured)
    } else {
        Err(LoadError::UnsupportedExtension)
    }
}

/// `name` without its recognized extension.
pub open spec fn base_name(name: Seq<char>) -> Seq<char> {
    if ends_with(name, ".csv"@) {
        name.subrange(0, name.len() - ".csv"@.len())
    } else if ends_with(name, ".json"@) {
        name.subrange(0, name.len() - ".json"@.len())
    } else {
        name
    }
}

fn strip_suffix<'a>(name: &'a str, suffix: &str) -> (r: Option<&'a str>)
    ensures
        r matches Some(b) ==> ends_with(name@, suffix@) && b@ == name@.subrange(0, name@.len() - suffix@.len()),
        r is None ==> !ends_with(name@, suffix@),
{
    if has_suffix(name, suffix) {
        let n = name.unicode_len();
        let m = suffix.unicode_len();
        Some(name.substring_char(0, n - m))
    } else {
        None
    }
}

/// The base name of the reports for the test-case file `name`: the name
/// without its recognized extension.
pub fn report_base_name(name: &str) -> (r: String)
    ensures
        r@ == base_name(name@),
{
    match strip_suffix(name, ".csv") {
        Some(b) => b.to_string(),
        None => match strip_suffix(name, ".json") {
            Some(b) => b.to_string(),
            None => name.to_string(),
        },
    }
}

/// The file of the JSON report for base name `base`.
pub fn json_report_file(base: &str) -> (r: String)
    ensures
        r@ == base@ + ".robots-test-results.json"@,
{
    let mut r = base.to_string();
    r.append(".robots-test-results.json");
    r
}

/// The file of the JUnit-style report for base name `base`.
pub fn xml_report_file(base: &str) -> (r: String)
    ensures
        r@ == base@ + ".robots-test-results.xml"@,
{
    let mut r = base.to_string();
    r.append(".robots-test-results.xml");
    r
}

} // verus!
