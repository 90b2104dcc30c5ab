//! Reading test cases from tabular text: one record per case, with the
//! fields agent, URL and expected result, after a header record.
use vstd::prelude::*;
use crate::model::{CaseView, TestCase, cases_view};
use lenient_bool::LenientBool;

verus! {

/// `c` is `w` or, where `w` is a lower-case ASCII letter, its upper-case form.
pub open spec fn folds_to(c: char, w: char) -> bool {
    c == w || ('A' <= c && c <= 'Z' && c as u32 + 32 == w as u32)
}

/// `s` equals the lower-case ASCII word `w`, ignoring ASCII case.
pub open spec fn same_word(s: Seq<char>, w: Seq<char>) -> bool {
    s.len() == w.len() && forall|i: int| 0 <= i < s.len() ==> folds_to(s[i], w[i])
}

pub open spec fn reads_true(s: Seq<char>) -> bool {
    same_word(s, seq!['t', 'r', 'u', 'e']) || same_word(s, seq!['t']) || same_word(
        s,
        seq!['y', 'e', 's'],
    ) || same_word(s, seq!['y']) || s == seq!['1']
}

pub open spec fn reads_false(s: Seq<char>) -> bool {
    same_word(s, seq!['f', 'a', 'l', 's', 'e']) || same_word(s, seq!['f']) || same_word(
        s,
        seq!['n', 'o'],
    ) || same_word(s, seq!['n']) || s == seq!['0']
}

/// The boolean that a lenient field denotes: true/t/yes/y/1 or
/// false/f/no/n/0, letters in any case.
pub open spec fn lenient_value(s: Seq<char>) -> Option<bool> {
    if reads_true(s) {
        Some(true)
    } else if reads_false(s) {
        Some(false)
    } else {
        None
    }
}

/// Relies on `FromStr for lenient_bool::LenientBool`, which accepts exactly
/// these spellings, comparing with `eq_ignore_ascii_case`.
#[verifier::external_body]
fn parse_lenient(s: &str) -> (r: Option<bool>)
    ensures
        r == lenient_value(s@),
{
    s.parse::<LenientBool>().ok().map(|b| b.0)
}

/// The records that a CSV reader with default settings yields for `text`
/// (the first record is the header and is not among them), or `None` where
/// it reports an error.
pub uninterp spec fn csv_records(text: Seq<u8>) -> Option<Seq<Seq<Seq<char>>>>;

pub open spec fn rows_view(rows: Seq<Vec<String>>) -> Seq<Seq<Seq<char>>> {
    rows.map_values(|row: Vec<String>| row@.map_values(|f: String| f@))
}

/// Relies on `csv::Reader::from_reader` and `records`: reads every record
/// after the header, each as its fields; the first error, as its message.
#[verifier::external_body]
fn read_csv_records(text: &[u8]) -> (r: Result<Vec<Vec<String>>, String>)
    ensures
        match r {
            Ok(rows) => csv_records(text@) == Some(rows_view(rows@)),
            Err(_) => csv_records(text@) is None,
        },
{
    let mut reader = csv::Reader::from_reader(text);
    reader.records().map(|rec| rec.map(|rec| rec.iter().map(|f| f.to_string()).collect()))
        .collect::<Result<Vec<Vec<String>>, csv::Error>>().map_err(|e| e.to_string())
}

/// Why test cases could not be loaded. Rows are counted from 0, after the
/// header.
pub enum LoadError {
    /// The reader rejected the text; its message.
    Unreadable(String),
    /// A record without exactly three fields.
    FieldCount { row: usize, found: usize },
    /// A record whose agent or URL is empty.
    EmptyField { row: usize },
    /// A record whose expected result is no boolean.
    BadBoolean { row: usize },
    /// A file whose extension names no known format.
    UnsupportedExtension,
}

pub open spec fn row_ok(row: Seq<Seq<char>>) -> bool {
    row.len() == 3 && row[0].len() > 0 && row[1].len() > 0 && lenient_value(row[2]) is Some
}

pub open spec fn row_case(row: Seq<Seq<char>>) -> CaseView {
    CaseView { agent: row[0], url: row[1], expected: lenient_value(row[2])->Some_0 }
}

/// The error for the bad record `row` at index `k`.
pub open spec fn row_error(row: Seq<Seq<char>>, k: int) -> LoadError {
    if row.len() != 3 {
        LoadError::FieldCount { row: k as usize, found: row.len() as usize }
    } else if row[0].len() == 0 || row[1].len() == 0 {
        LoadError::EmptyField { row: k as usize }
    } else {
        LoadError::BadBoolean { row: k as usize }
    }
}

/// `r` is what loading the records `rows` gives: every case, in order, when
/// all records are good; else the error of the first bad one.
pub open spec fn loaded_from(rows: Seq<Seq<Seq<char>>>, r: Result<Vec<TestCase>, LoadError>) -> bool {
    match r {
        Ok(cs) => (forall|k: int| 0 <= k < rows.len() ==> row_ok(#[trigger] rows[k]))
            && cases_view(cs@) == rows.map_values(|row: Seq<Seq<char>>| row_case(row)),
        Err(e) => exists|k: int|
            0 <= k < rows.len() && !row_ok(#[trigger] rows[k]) && (forall|j: int|
                0 <= j < k ==> row_ok(#[trigger] rows[j])) && e == row_error(rows[k], k),
    }
}

/// Turns records into test cases; fails on the first bad record.
pub fn cases_from_records(rows: &Vec<Vec<String>>) -> (r: Result<Vec<TestCase>, LoadError>)
    ensures
        loaded_from(rows_view(rows@), r),
        r matches Ok(cs) ==> forall|i: int| 0 <= i < cs.len() ==> (#[trigger] cs[i]).wf(),
{
    let ghost rv = rows_view(rows@);
    let mut cases: Vec<TestCase> = Vec::new();
    let mut i: usize = 0;
    while i < rows.len()
        invariant
            i <= rows.len(),
            rv == rows_view(rows@),
            cases.len() == i,
            forall|k: int| 0 <= k < i ==> row_ok(#[trigger] rv[k]),
            forall|k: int| 0 <= k < i ==> (#[trigger] cases[k])@ == row_case(rv[k]),
            forall|k: int| 0 <= k < i ==> (#[trigger] cases[k]).wf(),
        decreases rows.len() - i,
    {
        let row = &rows[i];
        assert(rv[i as int] == row@.map_values(|f: String| f@));
        if row.len() != 3 {
            let r = Err(LoadError::FieldCount { row: i, found: row.len() });
            assert(!row_ok(rv[i as int]) && r->Err_0 == row_error(rv[i as int], i as int));
            return r;
        }
        if row[0].as_str().unicode_len() == 0 || row[1].as_str().unicode_len() == 0 {
            let r = Err(LoadError::EmptyField { row: i });
            assert(!row_ok(rv[i as int]) && r->Err_0 == row_error(rv[i as int], i as int));
            return r;
        }
        match parse_lenient(row[2].as_str()) {
            None => {
                let r = Err(LoadError::BadBoolean { row: i });
                assert(!row_ok(rv[i as int]) && r->Err_0 == row_error(rv[i as int], i as int));
                return r;
            },
            Some(b) => {
                cases.push(TestCase { user_agent: row[0].clone(), url: row[1].clone(), expected_result: b });
            },
        }
        i = i + 1;
    }
    assert(cases_view(cases@) =~= rv.map_values(|row: Seq<Seq<char>>| row_case(row)));
    Ok(cases)
}

/// Loads test cases from tabular text.
pub fn load_csv(text: &[u8]) -> (r: Result<Vec<TestCase>, LoadError>)
    ensures
        csv_records(text@) is None <==> r matches Err(LoadError::Unreadable(_)),
        csv_records(text@) matches Some(rows) ==> loaded_from(rows, r),
        r matches Ok(cs) ==> forall|i: int| 0 <= i < cs.len() ==> (#[trigger] cs[i]).wf(),
{
    match read_csv_records(text) {
        Ok(rows) => cases_from_records(&rows),
        Err(msg) => Err(LoadError::Unreadable(msg)),
    }
}

/// Checks test cases read from structured records, which carry their
/// expected result as a boolean already: every agent and URL is non-empty.
/// Fails on the first case where one is empty.
pub fn validate_cases(cases: Vec<TestCase>) -> (r: Result<Vec<TestCase>, LoadError>)
    ensures
        r matches Ok(cs) ==> cs@ == cases@ && forall|i: int| 0 <= i < cs.len() ==> (#[trigger] cs[i]).wf(),
        r matches Err(e) ==> exists|k: int|
            0 <= k < cases.len() && !(#[trigger] cases[k]).wf() && (forall|j: int|
                0 <= j < k ==> (#[trigger] cases[j]).wf()) && e == (LoadError::EmptyField { row: k as usize }),
{
    let mut i: usize = 0;
    while i < cases.len()
        invariant
            i <= cases.len(),
            forall|j: int| 0 <= j < i ==> (#[trigger] cases[j]).wf(),
        decreases cases.len() - i,
    {
        if cases[i].user_agent.as_str().unicode_len() == 0 || cases[i].url.as_str().unicode_len() == 0 {
            assert(!cases[i as int].wf());
            return Err(LoadError::EmptyField { row: i });
        }
        i = i + 1;
    }
    Ok(cases)
}

} // verus!
