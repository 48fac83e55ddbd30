use regex::Regex;
use ynap::parser::records;
use ynap::{DecimalSeparator, Field, Parser, ReadError, RecordError};

fn bank(skip: usize, ignore: &[&str], delimiter: &str) -> Parser {
    Parser {
        name: "bank".to_string(),
        file_pattern: None,
        ignore_patterns: ignore.iter().map(|p| Regex::new(p).unwrap()).collect(),
        ignore_header_rows: skip,
        delimiter: delimiter.to_string(),
        columns: vec![
            Field::Date("%m/%d/%Y".to_string()),
            Field::Payee,
            Field::Outflow(DecimalSeparator::Period),
        ],
    }
}

#[test]
fn read_one_row_end_to_end() {
    let p = bank(0, &[], ",");
    let out = p.read_from_string("01/15/2023,Coffee Shop,4.50".to_string()).unwrap();
    assert_eq!(out.len(), 1);
    assert_eq!(out[0].date, "2023-01-15");
    assert_eq!(out[0].payee, "Coffee Shop");
    assert_eq!(out[0].amount, "-4.50");
}

#[test]
fn read_skips_header_rows_and_ignored_lines() {
    let p = bank(2, &["^Total", "pending"], ";");
    let text = "Export\r\nDate;Payee;Amount\r\n01/02/2023;A;1.00\nTotal;;1.00\n\
                03/04/2023;B pending;2.00\n05/06/2023;\"C;D\";1,000.00\n";
    let out = p.read_from_string(text.to_string()).unwrap();
    assert_eq!(out.len(), 2);
    assert_eq!(out[0].date, "2023-01-02");
    assert_eq!(out[0].payee, "A");
    assert_eq!(out[1].date, "2023-05-06");
    assert_eq!(out[1].payee, "C;D");
    assert_eq!(out[1].amount, "-1000.00");
}

#[test]
fn preprocess_joins_kept_lines() {
    let p = bank(1, &["^#"], ",");
    assert_eq!(p.preprocess("head\na\r\n#b\nc"), "a\nc\n");
    assert_eq!(p.preprocess(""), "");
    assert_eq!(p.preprocess("only the header"), "");
    assert!(p.ignores("# note"));
    assert!(!p.ignores("note #"));
}

#[test]
fn read_keeps_input_order() {
    let p = bank(0, &[], ",");
    let out = p
        .read_from_string("01/01/2023,A,1\n01/02/2023,B,2\n01/03/2023,C,3\n".to_string())
        .unwrap();
    let payees: Vec<&str> = out.iter().map(|r| r.payee.as_str()).collect();
    assert_eq!(payees, vec!["A", "B", "C"]);
}

#[test]
fn read_refuses_short_rows_and_bad_dates() {
    let p = bank(0, &[], ",");
    assert_eq!(
        p.read_from_string("01/15/2023,Shop\n".to_string()).unwrap_err(),
        ReadError::Row(RecordError::MappingError)
    );
    assert_eq!(
        p.read_from_string("15.01.2023,Shop,1.00\n".to_string()).unwrap_err(),
        ReadError::Row(RecordError::DateParseError)
    );
}

#[test]
fn read_refuses_rows_of_unequal_length() {
    let p = bank(0, &[], ",");
    assert_eq!(
        p.read_from_string("01/15/2023,Shop,1.00\n01/16/2023,Shop,1.00,extra\n".to_string())
            .unwrap_err(),
        ReadError::Csv
    );
    assert_eq!(
        p.read_from_string("bad,Shop,1.00\n01/16/2023,Shop,1.00,extra\n".to_string()).unwrap_err(),
        ReadError::Row(RecordError::DateParseError)
    );
}

#[test]
fn read_refuses_an_empty_delimiter() {
    let p = bank(0, &[], "");
    assert_eq!(
        p.read_from_string("01/15/2023,Shop,1.00".to_string()).unwrap_err(),
        ReadError::Delimiter
    );
}

#[test]
fn read_empty_input_gives_no_records() {
    let p = bank(0, &[], ",");
    assert!(p.read_from_string(String::new()).unwrap().is_empty());
    assert!(bank(5, &[], ",").read_from_string("a\nb\n".to_string()).unwrap().is_empty());
}

#[test]
fn records_from_rows() {
    let columns = vec![Field::Payee, Field::Memo];
    let rows = vec![
        Some(vec!["P".to_string(), "M".to_string()]),
        None,
        Some(vec!["short".to_string()]),
    ];
    assert_eq!(records(&rows, &columns).unwrap_err(), ReadError::Csv);
    let rows = vec![Some(vec!["P".to_string(), "M".to_string()])];
    let out = records(&rows, &columns).unwrap();
    assert_eq!(out[0].payee, "P");
    assert_eq!(out[0].memo, "M");
    let rows = vec![Some(vec!["P".to_string(), "M".to_string()]), Some(vec!["short".to_string()])];
    assert_eq!(records(&rows, &columns).unwrap_err(), ReadError::Row(RecordError::MappingError));
}

#[test]
fn preprocess_line_endings() {
    let p = bank(0, &[], ",");
    assert_eq!(p.preprocess("a\r\nb\n"), "a\nb\n");
    assert_eq!(p.preprocess("a\n\nb"), "a\n\nb\n");
    assert_eq!(p.preprocess("a\r"), "a\r\n");
    assert_eq!(p.preprocess("a\r\r\n"), "a\r\n");
    assert_eq!(p.preprocess("a\rb\n"), "a\rb\n");
    assert_eq!(p.preprocess("\n"), "\n");
    assert_eq!(p.preprocess("\n\n"), "\n\n");
}
