use ynap::{DecimalSeparator, ExtraField, Field, Record, RecordError, YnabRecord};

fn row(cells: &[&str]) -> Vec<String> {
    cells.iter().map(|c| c.to_string()).collect()
}

#[test]
fn simplify_period_strips_commas() {
    assert_eq!(DecimalSeparator::Period.simplify("1,234,567.89"), "1234567.89");
    assert_eq!(DecimalSeparator::Period.simplify("4.50"), "4.50");
    assert_eq!(DecimalSeparator::Period.simplify(""), "");
}

#[test]
fn simplify_comma_strips_periods_and_writes_a_period() {
    assert_eq!(DecimalSeparator::Comma.simplify("1.234.567,89"), "1234567.89");
    assert_eq!(DecimalSeparator::Comma.simplify("-12,5"), "-12.5");
    assert_eq!(DecimalSeparator::Comma.simplify("7"), "7");
}

#[test]
fn simplify_result_is_canonical() {
    for (sep, s) in [
        (DecimalSeparator::Period, "12,345.60"),
        (DecimalSeparator::Comma, "12.345,60"),
    ] {
        let out = sep.simplify(s);
        assert_eq!(out, "12345.60");
        assert!(!out.contains(','));
        assert_eq!(DecimalSeparator::Period.simplify(&out), out);
    }
}

#[test]
fn new_record_is_blank() {
    let r = Record::new();
    for key in ["date", "payee", "category", "memo", "amount"] {
        assert_eq!(r.get(key), Some(""));
    }
    assert_eq!(r.get("other"), None);
    assert!(!r.transformed);
    assert!(r.extra.is_empty());
}

#[test]
fn replace_returns_the_previous_value() {
    let mut r = Record::new();
    assert_eq!(r.replace("payee", "Shop".to_string()), Some(String::new()));
    assert_eq!(r.replace("payee", "Store".to_string()), Some("Shop".to_string()));
    assert_eq!(r.get("payee"), Some("Store"));
    assert_eq!(r.replace("note", "one".to_string()), None);
    assert_eq!(r.replace("note", "two".to_string()), Some("one".to_string()));
    assert_eq!(r.get("note"), Some("two"));
    assert_eq!(r.extra.len(), 1);
    assert!(!r.transformed);
}

#[test]
fn replace_each_canonical_slot() {
    let mut r = Record::new();
    for key in ["date", "payee", "category", "memo", "amount"] {
        assert_eq!(r.replace(key, format!("v-{}", key)), Some(String::new()));
    }
    assert_eq!(r.date, "v-date");
    assert_eq!(r.payee, "v-payee");
    assert_eq!(r.category, "v-category");
    assert_eq!(r.memo, "v-memo");
    assert_eq!(r.amount, "v-amount");
    assert!(r.extra.is_empty());
}

#[test]
fn keys_lists_canonical_then_extra() {
    let mut r = Record::new();
    assert_eq!(r.keys(), vec!["date", "payee", "category", "memo", "amount"]);
    r.replace("ref", "1".to_string());
    r.replace("branch", "2".to_string());
    r.replace("ref", "3".to_string());
    assert_eq!(r.keys(), vec!["date", "payee", "category", "memo", "amount", "ref", "branch"]);
}

#[test]
fn from_row_end_to_end() {
    let mapping = vec![
        Field::Date("%m/%d/%Y".to_string()),
        Field::Payee,
        Field::Outflow(DecimalSeparator::Period),
    ];
    let r = Record::from(&row(&["01/15/2023", "Coffee Shop", "4.50"]), &mapping).unwrap();
    assert_eq!(r.date, "2023-01-15");
    assert_eq!(r.payee, "Coffee Shop");
    assert_eq!(r.amount, "-4.50");
    assert_eq!(r.category, "");
    assert_eq!(r.memo, "");
    assert!(!r.transformed);
}

#[test]
fn from_row_every_column_is_retrievable() {
    let mapping = vec![
        Field::Date(String::new()),
        Field::Ignore,
        Field::Payee,
        Field::Category,
        Field::Memo,
        Field::Inflow(DecimalSeparator::Comma),
        Field::Extra("ref".to_string()),
    ];
    let cells = row(&["2023-02-03", "dropped", "P", "C", "M", "1.000,25", "R-9"]);
    let r = Record::from(&cells, &mapping).unwrap();
    assert_eq!(r.get("date"), Some("2023-02-03"));
    assert_eq!(r.get("payee"), Some("P"));
    assert_eq!(r.get("category"), Some("C"));
    assert_eq!(r.get("memo"), Some("M"));
    assert_eq!(r.get("amount"), Some("1000.25"));
    assert_eq!(r.get("ref"), Some("R-9"));
    assert_eq!(r.get("dropped"), None);
}

#[test]
fn from_row_date_other_pattern() {
    let mapping = vec![Field::Date("%d.%m.%Y".to_string())];
    let r = Record::from(&row(&["31.12.1999"]), &mapping).unwrap();
    assert_eq!(r.date, "1999-12-31");
}

#[test]
fn from_row_short_row_is_refused() {
    let mapping = vec![Field::Payee, Field::Memo];
    assert_eq!(Record::from(&row(&["only"]), &mapping).unwrap_err(), RecordError::MappingError);
    let dated = vec![Field::Date("%Y".to_string()), Field::Memo];
    assert_eq!(Record::from(&row(&["bad"]), &dated).unwrap_err(), RecordError::MappingError);
}

#[test]
fn from_row_longer_row_is_accepted() {
    let mapping = vec![Field::Payee];
    let r = Record::from(&row(&["P", "spare"]), &mapping).unwrap();
    assert_eq!(r.payee, "P");
}

#[test]
fn from_row_bad_date_is_refused() {
    let mapping = vec![Field::Date("%m/%d/%Y".to_string()), Field::Payee];
    assert_eq!(
        Record::from(&row(&["2023-01-15", "P"]), &mapping).unwrap_err(),
        RecordError::DateParseError
    );
    assert_eq!(
        Record::from(&row(&["13/45/2023", "P"]), &mapping).unwrap_err(),
        RecordError::DateParseError
    );
}

#[test]
fn from_row_later_amount_column_wins() {
    let mapping =
        vec![Field::Inflow(DecimalSeparator::Period), Field::Outflow(DecimalSeparator::Period)];
    let r = Record::from(&row(&["10.00", "2.50"]), &mapping).unwrap();
    assert_eq!(r.amount, "-2.50");
    let r = Record::from(&row(&["10.00", ""]), &mapping).unwrap();
    assert_eq!(r.amount, "-");
    let swapped =
        vec![Field::Outflow(DecimalSeparator::Period), Field::Inflow(DecimalSeparator::Period)];
    let r = Record::from(&row(&["10.00", "2.50"]), &swapped).unwrap();
    assert_eq!(r.amount, "2.50");
}

#[test]
fn from_row_repeated_extra_keeps_the_last() {
    let mapping = vec![Field::Extra("x".to_string()), Field::Extra("x".to_string())];
    let r = Record::from(&row(&["1", "2"]), &mapping).unwrap();
    assert_eq!(r.get("x"), Some("2"));
    assert_eq!(r.extra.len(), 1);
}

#[test]
fn assign_and_set_date() {
    let mut r = Record::new();
    assert_eq!(r.set_date(Some("2020-01-02".to_string())), Ok(()));
    assert_eq!(r.date, "2020-01-02");
    assert_eq!(r.set_date(None), Err(RecordError::DateParseError));
    assert_eq!(r.date, "2020-01-02");
    assert_eq!(r.assign(&Field::Memo, "note".to_string()), Ok(()));
    assert_eq!(r.memo, "note");
    assert_eq!(
        r.assign(&Field::Date("%Y-%m-%d".to_string()), "nope".to_string()),
        Err(RecordError::DateParseError)
    );
    assert_eq!(r.assign(&Field::Date("%d/%m/%y".to_string()), "05/06/21".to_string()), Ok(()));
    assert_eq!(r.date, "2021-06-05");
}

#[test]
fn header_and_row_of_a_record() {
    assert_eq!(<Record as YnabRecord>::header(), vec!["Date", "Payee", "Category", "Memo", "Amount"]);
    let mut r = Record::new();
    r.date = "2023-01-15".to_string();
    r.payee = "Coffee Shop".to_string();
    r.amount = "-4.50".to_string();
    r.replace("ref", "x".to_string());
    assert_eq!(r.to_record(), vec!["2023-01-15", "Coffee Shop", "", "", "-4.50"]);
}

#[test]
fn is_wf_tells_repeated_extra_names() {
    let mut r = Record::new();
    assert!(r.is_wf());
    r.replace("a", "1".to_string());
    r.replace("b", "2".to_string());
    assert!(r.is_wf());
    r.extra.push(ExtraField { name: "a".to_string(), value: "3".to_string() });
    assert!(!r.is_wf());
}
