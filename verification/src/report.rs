//! Reading results back: the aggregate summary of a result list, the rows of
//! its table, and the file format that a path selects.

use crate::classify::FuzzResult;
use crate::text::{chars_of, ends_with, slice_of, string_from_chars};
use vstd::prelude::*;

verus! {

/// The mark that stands for what `truncate` left out.
pub const ELLIPSIS: char = '\u{2026}';

/// The rows that the table shows.
pub const TABLE_ROWS: usize = 20;

/// The widths to which the table cuts a URL, a word and an annotation.
pub const URL_WIDTH: usize = 45;

pub const WORD_WIDTH: usize = 8;

pub const NOTE_WIDTH: usize = 10;

/// `s` cut to at most `max` characters, the last of them an ellipsis where
/// anything was left out.
pub open spec fn truncated(s: Seq<char>, max: int) -> Seq<char> {
    if s.len() <= max {
        s
    } else {
        s.take(max - 1).push(ELLIPSIS)
    }
}

/// Cuts `s` to at most `max` characters. A string that fits comes back as it
/// is; of a longer one the first `max - 1` characters are kept and an
/// ellipsis follows. A string that does not fit cannot be cut to no
/// characters at all.
pub fn truncate(s: &str, max: usize) -> (r: String)
    requires
        s@.len() <= max || max >= 1,
    ensures
        r@ == truncated(s@, max as int),
        r@.len() <= max,
{
    let cs = chars_of(s);
    if cs.len() <= max {
        return s.to_owned();
    }
    let mut kept = slice_of(&cs, 0, max - 1);
    kept.push(ELLIPSIS);
    proof {
        assert(cs@.subrange(0, max - 1) =~= cs@.take(max - 1));
    }
    string_from_chars(&kept)
}

/// The format of an exported file.
#[derive(Clone, Copy, Debug, PartialEq, Eq)]
pub enum ReportFormat {
    Json,
    Csv,
}

/// The format that a path selects by its ending: `.json`, else `.csv`.
pub open spec fn format_of(path: Seq<char>) -> Option<ReportFormat> {
    if ".json"@.is_suffix_of(path) {
        Some(ReportFormat::Json)
    } else if ".csv"@.is_suffix_of(path) {
        Some(ReportFormat::Csv)
    } else {
        None
    }
}

/// The format in which results are written to or read from `path`; `None`
/// where the path ends in neither `.json` nor `.csv`.
pub fn report_format(path: &str) -> (f: Option<ReportFormat>)
    ensures
        f == format_of(path@),
{
    if ends_with(path, ".json") {
        Some(ReportFormat::Json)
    } else if ends_with(path, ".csv") {
        Some(ReportFormat::Csv)
    } else {
        None
    }
}

/// The counts that the analysis prints.
#[derive(Clone, Copy, Debug, PartialEq, Eq)]
pub struct Summary {
    pub total: usize,
    pub success: usize,
    pub redirects: usize,
    pub client_errors: usize,
    pub server_errors: usize,
    pub reflected: usize,
    pub errors: usize,
}

/// How many of `results` have a status from `low` up to `high`.
pub open spec fn count_status(results: Seq<FuzzResult>, low: u16, high: u16) -> nat
    decreases results.len(),
{
    if results.len() == 0 {
        0
    } else {
        let rest = count_status(results.drop_last(), low, high);
        if low <= results.last().status < high {
            rest + 1
        } else {
            rest
        }
    }
}

/// How many of `results` are marked as reflected.
pub open spec fn count_reflected(results: Seq<FuzzResult>) -> nat
    decreases results.len(),
{
    if results.len() == 0 {
        0
    } else {
        let rest = count_reflected(results.drop_last());
        if results.last().reflected {
            rest + 1
        } else {
            rest
        }
    }
}

/// How many of `results` carry an annotation.
pub open spec fn count_errors(results: Seq<FuzzResult>) -> nat
    decreases results.len(),
{
    if results.len() == 0 {
        0
    } else {
        let rest = count_errors(results.drop_last());
        if results.last().error is Some {
            rest + 1
        } else {
            rest
        }
    }
}

/// The summary of a result list.
pub open spec fn summary_of(results: Seq<FuzzResult>) -> Summary {
    Summary {
        total: results.len() as usize,
        success: count_status(results, 200, 300) as usize,
        redirects: count_status(results, 300, 400) as usize,
        client_errors: count_status(results, 400, 500) as usize,
        server_errors: count_status(results, 500, 600) as usize,
        reflected: count_reflected(results) as usize,
        errors: count_errors(results) as usize,
    }
}

/// Counts the results by class of status, and those reflected and annotated.
pub fn summarize(results: &Vec<FuzzResult>) -> (s: Summary)
    ensures
        s == summary_of(results@),
        s.total == results@.len(),
        s.success == count_status(results@, 200, 300),
        s.redirects == count_status(results@, 300, 400),
        s.client_errors == count_status(results@, 400, 500),
        s.server_errors == count_status(results@, 500, 600),
        s.reflected == count_reflected(results@),
        s.errors == count_errors(results@),
{
    let mut s = Summary {
        total: results.len(),
        success: 0,
        redirects: 0,
        client_errors: 0,
        server_errors: 0,
        reflected: 0,
        errors: 0,
    };
    let mut k: usize = 0;
    while k < results.len()
        invariant
            k <= results.len(),
            s.total == results.len(),
            s.success == count_status(results@.take(k as int), 200, 300) <= k,
            s.redirects == count_status(results@.take(k as int), 300, 400) <= k,
            s.client_errors == count_status(results@.take(k as int), 400, 500) <= k,
            s.server_errors == count_status(results@.take(k as int), 500, 600) <= k,
            s.reflected == count_reflected(results@.take(k as int)) <= k,
            s.errors == count_errors(results@.take(k as int)) <= k,
        decreases results.len() - k,
    {
        proof {
            assert(results@.take(k + 1).drop_last() =~= results@.take(k as int));
            assert(results@.take(k + 1).last() == results@[k as int]);
        }
        let r = &results[k];
        if 200 <= r.status && r.status < 300 {
            s.success += 1;
        }
        if 300 <= r.status && r.status < 400 {
            s.redirects += 1;
        }
        if 400 <= r.status && r.status < 500 {
            s.client_errors += 1;
        }
        if 500 <= r.status && r.status < 600 {
            s.server_errors += 1;
        }
        if r.reflected {
            s.reflected += 1;
        }
        if r.error.is_some() {
            s.errors += 1;
        }
        k += 1;
    }
    proof {
        assert(results@.take(k as int) =~= results@);
    }
    s
}

/// One row of the table, each text cut to its column.
#[derive(Clone, Debug, PartialEq, Eq)]
pub struct Row {
    pub status: u16,
    pub url: String,
    pub word: String,
    pub reflected: bool,
    pub note: String,
}

/// The row that shows `result`.
pub open spec fn row_matches(row: Row, result: FuzzResult) -> bool {
    &&& row.status == result.status
    &&& row.url@ == truncated(result.url@, URL_WIDTH as int)
    &&& row.word@ == truncated(result.word@, WORD_WIDTH as int)
    &&& row.reflected == result.reflected
    &&& row.note@ == match result.error {
        Some(e) => truncated(e@, NOTE_WIDTH as int),
        None => Seq::<char>::empty(),
    }
}

/// How many rows the table shows of `len` results.
pub open spec fn shown_rows(len: int) -> int {
    if len <= TABLE_ROWS {
        len
    } else {
        TABLE_ROWS as int
    }
}

/// The rows of the table: the first twenty results, in order.
pub fn table_rows(results: &Vec<FuzzResult>) -> (rows: Vec<Row>)
    ensures
        rows@.len() == shown_rows(results@.len() as int),
        forall|i: int| 0 <= i < rows@.len() ==> row_matches(#[trigger] rows@[i], results@[i]),
{
    let shown: usize = if results.len() <= TABLE_ROWS {
        results.len()
    } else {
        TABLE_ROWS
    };
    let mut rows: Vec<Row> = Vec::new();
    let mut k: usize = 0;
    while k < shown
        invariant
            k <= shown <= results.len(),
            rows@.len() == k,
            forall|i: int| 0 <= i < k ==> row_matches(#[trigger] rows@[i], results@[i]),
        decreases shown - k,
    {
        let r = &results[k];
        let note = match &r.error {
            Some(e) => truncate(e.as_str(), NOTE_WIDTH),
            None => String::new(),
        };
        let row = Row {
            status: r.status,
            url: truncate(r.url.as_str(), URL_WIDTH),
            word: truncate(r.word.as_str(), WORD_WIDTH),
            reflected: r.reflected,
            note,
        };
        rows.push(row);
        k += 1;
    }
    rows
}

/// How many results the table leaves out.
pub fn hidden_rows(results: &Vec<FuzzResult>) -> (n: usize)
    ensures
        n == results@.len() - shown_rows(results@.len() as int),
{
    if results.len() > TABLE_ROWS {
        results.len() - TABLE_ROWS
    } else {
        0
    }
}

} // verus!
