use rerust::detect::git_history::RunOutcome;
use rerust::double::Double;
use rerust::geiger::{
    accumulate_functions, is_metric, json_share, measured_share, parse_geiger_json,
    parse_geiger_text, parse_report, ratio, Json,
};

fn percent(share: Option<Double>) -> Option<f64> {
    share.map(|x| f64::from_bits(x.bits))
}

#[test]
fn parses_nested_json_report() {
    let json = r#"{
            "packages": [
              [
                {"id": "root 0.1.0"},
                {"unsafety": {
                    "used":   {"functions": {"safe": 90, "unsafe_": 10}, "exprs": {"safe": 1, "unsafe_": 0}},
                    "unused": {"functions": {"safe": 0,  "unsafe_": 0}},
                    "forbids_unsafe": false
                }}
              ]
            ]
        }"#;
    assert_eq!(percent(parse_geiger_json(json)), Some(10.0));
}

#[test]
fn json_with_no_functions_is_none() {
    assert_eq!(percent(parse_geiger_json(r#"{"packages": []}"#)), None);
}

#[test]
fn parses_ascii_tree_totals() {
    let text = "\
Functions  Expressions  Impls  Traits  Methods  Dependency
2/8        0/0          0/0    0/0     0/0      ☢️  root 0.1.0
1/2        0/0          0/0    0/0     0/0      ☢️  dep 1.0.0";
    assert_eq!(percent(parse_geiger_text(text)), Some(30.0));
}

fn counts(safe: Json, unsafe_: Json, key: &str) -> Json {
    Json::Object(vec![(
        "functions".to_string(),
        Json::Object(vec![("safe".to_string(), safe), (key.to_string(), unsafe_)]),
    )])
}

fn whole(n: u64) -> Json {
    Json::Number(Some(n))
}

#[test]
fn functions_are_counted_at_any_depth() {
    let value = Json::Array(vec![
        counts(whole(3), whole(1), "unsafe"),
        Json::Object(vec![("x".to_string(), counts(whole(5), whole(2), "unsafe_"))]),
        counts(whole(7), Json::Text("many".to_string()), "unsafe_"),
        counts(Json::Number(None), whole(4), "unsafe_"),
        Json::Null,
        Json::Bool(true),
    ]);
    assert_eq!(accumulate_functions(&value), Some((8, 3)));
    assert_eq!(percent(json_share(&value)), Some(27.27));
}

#[test]
fn the_underscored_key_comes_first() {
    let both = Json::Object(vec![(
        "functions".to_string(),
        Json::Object(vec![
            ("safe".to_string(), whole(1)),
            ("unsafe".to_string(), whole(9)),
            ("unsafe_".to_string(), whole(2)),
        ]),
    )]);
    assert_eq!(accumulate_functions(&both), Some((1, 2)));
}

#[test]
fn sums_that_do_not_fit_give_nothing() {
    let big = Json::Array(vec![
        counts(whole(u64::MAX), whole(0), "unsafe"),
        counts(whole(1), whole(0), "unsafe"),
    ]);
    assert_eq!(accumulate_functions(&big), None);
    assert_eq!(percent(json_share(&big)), None);
    assert_eq!(percent(json_share(&counts(whole(u64::MAX), whole(1), "unsafe"))), None);
    assert_eq!(percent(parse_geiger_text("1/18446744073709551615\n1/1")), None);
}

#[test]
fn numbers_in_json_count_when_whole() {
    let report = |safe: &str| format!("{{\"functions\": {{\"safe\": {safe}, \"unsafe\": 1}}}}");
    assert_eq!(percent(parse_geiger_json(&report("3"))), Some(25.0));
    assert_eq!(percent(parse_geiger_json(&report("3.5"))), None);
    assert_eq!(percent(parse_geiger_json(&report("-3"))), None);
    assert_eq!(percent(parse_geiger_json("  not json")), None);
    assert_eq!(percent(parse_geiger_json(&format!("\n {} \n", report("1")))), Some(50.0));
}

#[test]
fn metrics_are_two_numbers() {
    assert!(is_metric("0/12"));
    assert!(!is_metric("/12"));
    assert!(!is_metric("1/"));
    assert!(!is_metric("1/2/3"));
    assert!(!is_metric("+1/2"));
    assert!(!is_metric("12"));
    // A number too large to count is passed over with its line.
    assert_eq!(percent(parse_geiger_text("1/99999999999999999999 5/6\n1/3")), Some(33.33));
    assert_eq!(percent(parse_geiger_text("0/0")), None);
    // More unsafe functions than there are is no share.
    assert_eq!(percent(parse_geiger_text("5/2")), None);
    assert_eq!(percent(parse_geiger_text("5/2\n0/3")), Some(100.0));
}

#[test]
fn reports_fall_back_to_text() {
    assert_eq!(percent(parse_report("1/4 x")), Some(25.0));
    assert_eq!(percent(parse_report("{\"functions\": {\"safe\": 1, \"unsafe\": 1}}")), Some(50.0));
    assert_eq!(percent(parse_report("nothing")), None);
    assert_eq!(percent(measured_share(RunOutcome::Finished { success: false }, "1/4")), Some(25.0));
    assert_eq!(percent(measured_share(RunOutcome::Finished { success: true }, "5/2")), None);
    assert_eq!(percent(measured_share(RunOutcome::TimedOut, "1/4")), None);
    assert_eq!(percent(measured_share(RunOutcome::NotRun, "1/4")), None);
}

#[test]
fn shares_are_rounded_to_hundredths() {
    assert_eq!(ratio(1, 0), None);
    assert_eq!(percent(ratio(2, 3)), Some(66.67));
    for whole in 1..300u64 {
        for part in 0..=whole {
            let pct = (part as f64 / whole as f64) * 100.0;
            assert_eq!(percent(ratio(part, whole)), Some((pct * 100.0).round() / 100.0));
        }
    }
}
