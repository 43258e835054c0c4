use rustfuzz::classify::FuzzResult;
use rustfuzz::report::{
    hidden_rows, report_format, summarize, table_rows, truncate, ReportFormat, Summary,
};

fn result(status: u16, reflected: bool, error: Option<&str>) -> FuzzResult {
    FuzzResult {
        url: format!("http://example.test/{}", status),
        word: format!("{}", status),
        status,
        reflected,
        error: error.map(|e| e.to_string()),
    }
}

#[test]
fn truncate_keeps_what_fits() {
    assert_eq!(truncate("admin", 8), "admin");
    assert_eq!(truncate("12345678", 8), "12345678");
    assert_eq!(truncate("", 0), "");
    assert_eq!(truncate("", 3), "");
}

#[test]
fn truncate_cuts_to_the_width() {
    assert_eq!(truncate("123456789", 8), "1234567\u{2026}");
    assert_eq!(truncate("ab", 1), "\u{2026}");
    let long = "http://example.test/a/very/long/path/that/does/not/fit/the/column";
    let cut = truncate(long, 45);
    assert_eq!(cut.chars().count(), 45);
    assert_eq!(cut, format!("{}\u{2026}", &long[..44]));
}

#[test]
fn truncate_counts_characters() {
    assert_eq!(truncate("\u{e9}\u{e9}\u{e9}\u{e9}", 4), "\u{e9}\u{e9}\u{e9}\u{e9}");
    assert_eq!(truncate("\u{e9}\u{e9}\u{e9}\u{e9}\u{e9}", 4), "\u{e9}\u{e9}\u{e9}\u{2026}");
}

#[test]
fn the_ending_selects_the_format() {
    assert_eq!(report_format("out.json"), Some(ReportFormat::Json));
    assert_eq!(report_format("dir/out.csv"), Some(ReportFormat::Csv));
    assert_eq!(report_format("out.txt"), None);
    assert_eq!(report_format("json"), None);
    assert_eq!(report_format("out.JSON"), None);
}

#[test]
fn summary_counts_by_class() {
    let results = vec![
        result(200, true, None),
        result(204, false, Some("Possible error detected")),
        result(301, false, None),
        result(403, true, None),
        result(404, false, None),
        result(500, false, Some("Possible error detected")),
        result(0, false, Some("timeout")),
        result(600, false, None),
        result(199, false, None),
    ];
    assert_eq!(
        summarize(&results),
        Summary {
            total: 9,
            success: 2,
            redirects: 1,
            client_errors: 2,
            server_errors: 1,
            reflected: 2,
            errors: 3,
        }
    );
}

#[test]
fn summary_of_nothing_is_zero() {
    assert_eq!(
        summarize(&vec![]),
        Summary {
            total: 0,
            success: 0,
            redirects: 0,
            client_errors: 0,
            server_errors: 0,
            reflected: 0,
            errors: 0,
        }
    );
}

#[test]
fn the_table_shows_twenty_rows() {
    let mut results = Vec::new();
    for i in 0..25u16 {
        results.push(result(200 + i, i % 2 == 0, None));
    }
    let rows = table_rows(&results);
    assert_eq!(rows.len(), 20);
    assert_eq!(hidden_rows(&results), 5);
    assert_eq!(rows[0].status, 200);
    assert_eq!(rows[19].status, 219);
    assert!(rows[0].reflected);
    assert!(!rows[1].reflected);
    assert_eq!(rows[3].note, "");
    let few = vec![result(200, false, Some("Possible error detected"))];
    let rows = table_rows(&few);
    assert_eq!(rows.len(), 1);
    assert_eq!(hidden_rows(&few), 0);
    assert_eq!(rows[0].note, "Possible e\u{2026}".chars().take(9).collect::<String>() + "\u{2026}");
    assert_eq!(rows[0].url, "http://example.test/200");
    assert_eq!(rows[0].word, "200");
}

#[test]
fn rows_are_cut_to_their_columns() {
    let r = FuzzResult {
        url: "http://example.test/0123456789012345678901234567890123456789".to_string(),
        word: "0123456789".to_string(),
        status: 200,
        reflected: false,
        error: None,
    };
    let rows = table_rows(&vec![r]);
    assert_eq!(rows[0].url.chars().count(), 45);
    assert_eq!(rows[0].word, "0123456\u{2026}");
}
