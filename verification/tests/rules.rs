use ynap::payees::{ambiguity_warning, maybe_escape};
use ynap::{
    ConfigError, Matcher, MatcherBuilder, MrClean, Payees, Record, Rules, TemplateError,
    Transformer,
};

fn pairs(items: &[(&str, &str)]) -> Vec<(String, String)> {
    items.iter().map(|(k, v)| (k.to_string(), v.to_string())).collect()
}

fn aliases(items: &[(&str, &[&str])]) -> Vec<(String, Vec<String>)> {
    items.iter().map(|(k, v)| (k.to_string(), v.iter().map(|a| a.to_string()).collect())).collect()
}

fn matcher(search: &[(&str, &str)], replace: &[(&str, &str)]) -> Matcher {
    MatcherBuilder { label: None, search: pairs(search), replace: pairs(replace) }.build().unwrap()
}

fn with_payee(payee: &str) -> Record {
    let mut r = Record::new();
    r.payee = payee.to_string();
    r
}

#[test]
fn matcher_rewrites_from_named_capture() {
    let m = matcher(&[("payee", r"^FOO(?P<n>\d+)$")], &[("memo", "id=${n}")]);
    let mut r = with_payee("FOO42");
    assert!(m.is_match(&r));
    assert_eq!(m.transform(&mut r), Ok(true));
    assert_eq!(r.memo, "id=42");
    assert_eq!(r.payee, "FOO42");
    assert!(r.transformed);
}

#[test]
fn matcher_does_not_fire_without_a_match() {
    let m = matcher(&[("payee", r"^FOO(?P<n>\d+)$")], &[("memo", "id=${n}")]);
    let mut r = with_payee("BAR");
    r.memo = "kept".to_string();
    assert!(!m.is_match(&r));
    assert_eq!(m.transform(&mut r), Ok(false));
    assert_eq!(r.payee, "BAR");
    assert_eq!(r.memo, "kept");
    assert!(!r.transformed);
    assert!(r.extra.is_empty());
}

#[test]
fn matcher_needs_every_pattern_and_every_slot() {
    let m = matcher(&[("payee", "Shop"), ("memo", "card")], &[("category", "Food")]);
    let mut r = with_payee("Shop 12");
    r.memo = "cash".to_string();
    assert!(!m.is_match(&r));
    assert_eq!(m.transform(&mut r), Ok(false));
    assert_eq!(r.category, "");
    r.memo = "card 9".to_string();
    assert!(m.is_match(&r));
    assert_eq!(m.transform(&mut r), Ok(true));
    assert_eq!(r.category, "Food");

    let absent = matcher(&[("branch", ".*")], &[("category", "X")]);
    let mut r = with_payee("Shop");
    assert!(!absent.is_match(&r));
    assert_eq!(absent.transform(&mut r), Ok(false));
    r.replace("branch", "north".to_string());
    assert!(absent.is_match(&r));
}

#[test]
fn matcher_without_patterns_always_fires() {
    let m = matcher(&[], &[("category", "Misc")]);
    let mut r = Record::new();
    assert!(m.is_match(&r));
    assert_eq!(m.transform(&mut r), Ok(true));
    assert_eq!(r.category, "Misc");
    assert!(r.transformed);
    let empty = Matcher::default();
    let mut r = Record::new();
    assert!(empty.is_match(&r));
    assert_eq!(empty.transform(&mut r), Ok(true));
    assert!(r.transformed);
}

#[test]
fn matcher_lookup_prefers_captures_then_record_then_empty() {
    let m = matcher(
        &[("payee", r"^(?P<memo>\w+) (?P<rest>\w+)$")],
        &[("category", "${memo}/${amount}/${nothing}/${rest|uppercase}")],
    );
    let mut r = with_payee("alpha beta");
    r.memo = "record memo".to_string();
    r.amount = "1.00".to_string();
    assert_eq!(m.transform(&mut r), Ok(true));
    assert_eq!(r.category, "alpha/1.00//BETA");
}

#[test]
fn matcher_later_capture_of_a_name_wins() {
    let m = matcher(
        &[("payee", r"(?P<x>\d+)"), ("memo", r"(?P<x>[a-z]+)")],
        &[("category", "${x}")],
    );
    let mut r = with_payee("no 77");
    r.memo = "word".to_string();
    assert_eq!(m.transform(&mut r), Ok(true));
    assert_eq!(r.category, "word");
}

#[test]
fn matcher_group_that_took_no_part_is_not_captured() {
    let m = matcher(&[("payee", r"^(?:(?P<a>x)|(?P<b>y))$")], &[("memo", "[${a}][${b}]")]);
    let mut r = with_payee("y");
    assert_eq!(m.transform(&mut r), Ok(true));
    assert_eq!(r.memo, "[][y]");
}

#[test]
fn matcher_replace_entries_see_earlier_ones() {
    let m = matcher(&[], &[("memo", "first"), ("category", "${memo}!")]);
    let mut r = Record::new();
    assert_eq!(m.transform(&mut r), Ok(true));
    assert_eq!(r.category, "first!");
}

#[test]
fn matcher_writes_extra_slots() {
    let m = matcher(&[("payee", r"#(?P<id>\d+)")], &[("order", "${id}")]);
    let mut r = with_payee("Shop #981");
    assert_eq!(m.transform(&mut r), Ok(true));
    assert_eq!(r.get("order"), Some("981"));
}

#[test]
fn matcher_template_failure_is_an_error() {
    let m = matcher(&[], &[("memo", "${payee|not_empty}")]);
    let mut r = Record::new();
    assert_eq!(m.transform(&mut r), Err(TemplateError::EmptyValue("payee".to_string())));
    let bad = matcher(&[], &[("memo", "${payee|reverse}")]);
    assert_eq!(bad.transform(&mut r), Err(TemplateError::InvalidCommand("reverse".to_string())));
}

#[test]
fn builder_refuses_an_invalid_pattern() {
    let b = MatcherBuilder {
        label: Some("broken".to_string()),
        search: pairs(&[("payee", "ok"), ("memo", "(open"), ("date", "[z")]),
        replace: pairs(&[]),
    };
    assert_eq!(b.build().unwrap_err(), ConfigError::InvalidPattern("(open".to_string()));
    let b = MatcherBuilder { label: None, search: pairs(&[("payee", "*")]), replace: pairs(&[]) };
    assert_eq!(Matcher::from(b).unwrap_err(), ConfigError::InvalidPattern("*".to_string()));
}

#[test]
fn maybe_escape_literal_and_expression() {
    assert_eq!(maybe_escape("a.b (c)".to_string()), r"a\.b \(c\)");
    assert_eq!(maybe_escape("^a.b$".to_string()), "^a.b$");
    assert_eq!(maybe_escape("^a.b".to_string()), r"\^a\.b");
    assert_eq!(maybe_escape("a.b$".to_string()), r"a\.b\$");
    assert_eq!(maybe_escape("^".to_string()), r"\^");
    assert_eq!(maybe_escape(String::new()), "");
}

#[test]
fn payees_strict_ambiguity_takes_first_and_reports_all() {
    let map = aliases(&[
        ("Alpha Market", &["MARKET"]),
        ("Other", &["nothing"]),
        ("Beta Market", &["^.*MARKET 7$"]),
    ]);
    let p = Payees::new(&map, false).unwrap().into_strict();
    let mut r = with_payee("MARKET 7");
    let names = p.resolve(&mut r);
    assert_eq!(names, vec!["Alpha Market".to_string(), "Beta Market".to_string()]);
    assert_eq!(r.payee, "Alpha Market");
    assert_eq!(
        ambiguity_warning("MARKET 7", &names),
        vec![
            "warning: multiple aliases match payee: MARKET 7".to_string(),
            "       | - Alpha Market".to_string(),
            "       | - Beta Market".to_string(),
        ]
    );
    let mut r = with_payee("MARKET 7");
    assert!(p.is_match(&r));
    assert_eq!(p.transform(&mut r), Ok(true));
    assert_eq!(r.payee, "Alpha Market");
    assert!(r.transformed);
}

#[test]
fn payees_lenient_takes_first_and_stops() {
    let map = aliases(&[("Alpha", &["MARKET"]), ("Beta", &["MARKET"])]);
    let p = Payees::from(map).unwrap();
    assert!(!p.strict);
    let mut r = with_payee("SUPER MARKET");
    let names = p.resolve(&mut r);
    assert_eq!(names, vec!["Alpha".to_string()]);
    assert_eq!(r.payee, "Alpha");
    assert!(ambiguity_warning("SUPER MARKET", &names).is_empty());
}

#[test]
fn payees_no_match_leaves_the_record() {
    let map = aliases(&[("Alpha", &["MARKET"])]);
    let p = Payees::new(&map, false).unwrap();
    let mut r = with_payee("market");
    assert!(!p.is_match(&r));
    assert_eq!(p.transform(&mut r), Ok(false));
    assert_eq!(r.payee, "market");
    let q = Payees::new(&map, true).unwrap();
    assert!(q.is_match(&r));
    assert_eq!(q.transform(&mut r), Ok(true));
    assert_eq!(r.payee, "Alpha");
}

#[test]
fn payees_alias_is_literal_unless_anchored() {
    let map = aliases(&[("Dotted", &["A.B"]), ("Anchored", &["^A.B$"])]);
    let p = Payees::new(&map, false).unwrap().into_strict();
    let mut r = with_payee("AxB");
    assert_eq!(p.resolve(&mut r), vec!["Anchored".to_string()]);
    let mut r = with_payee("see A.B here");
    assert_eq!(p.resolve(&mut r), vec!["Dotted".to_string()]);
}

#[test]
fn payees_default_is_strict_and_empty() {
    let p = Payees::default();
    assert!(p.strict);
    assert!(p.aliases.is_empty());
    let mut r = with_payee("x");
    assert!(!p.is_match(&r));
    assert_eq!(p.transform(&mut r), Ok(false));
}

#[test]
fn payees_refuse_an_invalid_alias() {
    let map = aliases(&[("Fine", &["x"]), ("Broken", &["ok", "^(x$"]), ("Also", &["^[$"])]);
    assert_eq!(
        Payees::new(&map, false).unwrap_err(),
        ConfigError::InvalidAlias("Broken".to_string())
    );
}

#[test]
fn ambiguity_warning_needs_two_names() {
    assert!(ambiguity_warning("p", &vec![]).is_empty());
    assert!(ambiguity_warning("p", &vec!["one".to_string()]).is_empty());
    let three = vec!["a".to_string(), "b".to_string(), "c".to_string()];
    assert_eq!(ambiguity_warning("p", &three).len(), 4);
}

#[test]
fn chain_fires_when_a_later_rule_fires() {
    let rules = vec![
        matcher(&[("payee", "^never$")], &[("memo", "a")]),
        matcher(&[("payee", "^nor this$")], &[("memo", "b")]),
        matcher(&[("payee", "Shop")], &[("memo", "c")]),
    ];
    let mut r = with_payee("Shop");
    assert!(rules.is_match(&r));
    assert_eq!(rules.transform(&mut r), Ok(true));
    assert_eq!(r.memo, "c");
    let mut r = with_payee("Bank");
    assert!(!rules.is_match(&r));
    assert_eq!(rules.transform(&mut r), Ok(false));
    assert_eq!(r.memo, "");
    let none: Vec<Matcher> = Vec::new();
    assert!(!none.is_match(&r));
    assert_eq!(none.transform(&mut r), Ok(false));
}

#[test]
fn chain_applies_every_rule_after_one_fired() {
    let rules = vec![
        matcher(&[("payee", "Shop")], &[("memo", "first")]),
        matcher(&[("payee", "^never$")], &[("memo", "skipped")]),
        matcher(&[("memo", "^first$")], &[("category", "second")]),
    ];
    let mut r = with_payee("Shop");
    assert_eq!(rules.transform(&mut r), Ok(true));
    assert_eq!(r.memo, "first");
    assert_eq!(r.category, "second");
}

#[test]
fn pipeline_orders_rewrites_around_payees() {
    let rules = Rules {
        pre_transform: vec![MatcherBuilder {
            label: None,
            search: pairs(&[("payee", r"^POS \d+ (?P<who>.*)$")]),
            replace: pairs(&[("payee", "${who}")]),
        }],
        payees: aliases(&[("Coffee Shop", &["coffee"])]),
        post_transform: vec![MatcherBuilder {
            label: None,
            search: pairs(&[("payee", "^Coffee Shop$")]),
            replace: pairs(&[("category", "Eating out")]),
        }],
    };
    let chain = MrClean::from(rules).unwrap();
    assert_eq!(chain.transformers.len(), 3);
    let mut r = with_payee("POS 1234 THE COFFEE PLACE");
    assert!(chain.is_match(&r));
    assert_eq!(chain.transform(&mut r), Ok(true));
    assert_eq!(r.payee, "Coffee Shop");
    assert_eq!(r.category, "Eating out");
    let mut r = with_payee("Bakery");
    assert!(!chain.is_match(&r));
    assert_eq!(chain.transform(&mut r), Ok(false));
    assert_eq!(r.payee, "Bakery");
}

#[test]
fn pipeline_payees_alone_fire() {
    let rules = Rules {
        pre_transform: vec![],
        payees: aliases(&[("Grocer", &["GROC"])]),
        post_transform: vec![],
    };
    let chain = MrClean::from(rules).unwrap();
    let mut r = with_payee("groc 12");
    assert_eq!(chain.transform(&mut r), Ok(true));
    assert_eq!(r.payee, "Grocer");
}

#[test]
fn pipeline_refuses_invalid_rules_in_order() {
    let broken = |p: &str| MatcherBuilder {
        label: None,
        search: pairs(&[("payee", p)]),
        replace: pairs(&[]),
    };
    let rules = Rules {
        pre_transform: vec![broken("fine"), broken("(a")],
        payees: aliases(&[("P", &["^)$"])]),
        post_transform: vec![broken("(b")],
    };
    assert_eq!(MrClean::from(rules).unwrap_err(), ConfigError::InvalidPattern("(a".to_string()));
    let rules = Rules {
        pre_transform: vec![broken("fine")],
        payees: aliases(&[("P", &["^)$"])]),
        post_transform: vec![broken("(b")],
    };
    assert_eq!(MrClean::from(rules).unwrap_err(), ConfigError::InvalidAlias("P".to_string()));
    let rules = Rules {
        pre_transform: vec![],
        payees: vec![],
        post_transform: vec![broken("fine"), broken("(b")],
    };
    assert_eq!(MrClean::from(rules).unwrap_err(), ConfigError::InvalidPattern("(b".to_string()));
}

#[test]
fn pipeline_stops_at_a_template_failure() {
    let rules = Rules {
        pre_transform: vec![MatcherBuilder {
            label: None,
            search: pairs(&[]),
            replace: pairs(&[("memo", "${memo|oops}")]),
        }],
        payees: vec![],
        post_transform: vec![],
    };
    let chain = MrClean::from(rules).unwrap();
    let mut r = Record::new();
    assert_eq!(chain.transform(&mut r), Err(TemplateError::InvalidCommand("oops".to_string())));
}

#[test]
fn pipeline_reports_an_ambiguous_payee() {
    let rules = Rules {
        pre_transform: vec![],
        payees: aliases(&[("Alpha", &["market"]), ("Beta", &["MARKET"])]),
        post_transform: vec![MatcherBuilder {
            label: None,
            search: pairs(&[("payee", "^Alpha$")]),
            replace: pairs(&[("category", "Food")]),
        }],
    };
    let chain = MrClean::from(rules).unwrap();
    let mut r = with_payee("Super Market");
    let mut warnings = vec!["earlier".to_string()];
    assert_eq!(chain.transform_reporting(&mut r, &mut warnings), Ok(true));
    assert_eq!(r.payee, "Alpha");
    assert_eq!(r.category, "Food");
    assert_eq!(
        warnings,
        vec![
            "earlier".to_string(),
            "warning: multiple aliases match payee: Super Market".to_string(),
            "       | - Alpha".to_string(),
            "       | - Beta".to_string(),
        ]
    );
    let mut r = with_payee("Bakery");
    let mut warnings = Vec::new();
    assert_eq!(chain.transform_reporting(&mut r, &mut warnings), Ok(false));
    assert!(warnings.is_empty());
}

#[test]
fn payees_mark_the_record_only_on_a_match() {
    let map = aliases(&[("Alpha", &["MARKET"])]);
    let p = Payees::new(&map, false).unwrap();
    let mut r = with_payee("MARKET");
    assert!(!r.transformed);
    assert_eq!(p.resolve(&mut r), vec!["Alpha".to_string()]);
    assert!(r.transformed);
    let mut r = with_payee("BANK");
    assert!(p.resolve(&mut r).is_empty());
    assert!(!r.transformed);
    assert_eq!(p.transform(&mut r), Ok(false));
    assert!(!r.transformed);
}

#[test]
fn pipeline_marks_the_record_when_only_payees_fire() {
    let rules = Rules {
        pre_transform: vec![],
        payees: aliases(&[("Grocer", &["groc"])]),
        post_transform: vec![],
    };
    let chain = MrClean::from(rules).unwrap();
    let mut r = with_payee("GROC 1");
    assert_eq!(chain.transform(&mut r), Ok(true));
    assert!(r.transformed);
    let mut r = with_payee("other");
    assert_eq!(chain.transform(&mut r), Ok(false));
    assert!(!r.transformed);
}

#[test]
fn repeated_slots_in_a_rule() {
    let m = matcher(
        &[("payee", "^A"), ("payee", "Z$")],
        &[("memo", "one"), ("memo", "${memo} two")],
    );
    let mut r = with_payee("A to Z");
    assert_eq!(m.transform(&mut r), Ok(true));
    assert_eq!(r.memo, "one two");
    let mut r = with_payee("A to B");
    assert_eq!(m.transform(&mut r), Ok(false));
}

#[test]
fn repeated_payee_names_are_tried_in_order() {
    let map = aliases(&[("Same", &["one"]), ("Other", &["two"]), ("Same", &["two"])]);
    let p = Payees::new(&map, false).unwrap().into_strict();
    let mut r = with_payee("two");
    assert_eq!(p.resolve(&mut r), vec!["Other".to_string(), "Same".to_string()]);
    assert_eq!(r.payee, "Other");
}

#[test]
fn template_failure_keeps_what_was_written_before() {
    let m = matcher(
        &[("payee", "Shop")],
        &[("memo", "first"), ("category", "${memo|oops}"), ("payee", "never")],
    );
    let mut r = with_payee("Shop");
    assert_eq!(m.transform(&mut r), Err(TemplateError::InvalidCommand("oops".to_string())));
    assert_eq!(r.memo, "first");
    assert_eq!(r.category, "");
    assert_eq!(r.payee, "Shop");
    assert!(!r.transformed);

    let rules = vec![
        matcher(&[], &[("category", "set")]),
        matcher(&[], &[("memo", "kept"), ("payee", "${date|not_empty}")]),
        matcher(&[], &[("amount", "never")]),
    ];
    let mut r = with_payee("Shop");
    assert_eq!(rules.transform(&mut r), Err(TemplateError::EmptyValue("date".to_string())));
    assert_eq!(r.category, "set");
    assert_eq!(r.memo, "kept");
    assert_eq!(r.payee, "Shop");
    assert_eq!(r.amount, "");
    assert!(r.transformed);
}
