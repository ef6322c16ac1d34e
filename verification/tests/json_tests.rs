use agent_core::json::{parse_event_json, write_event_json};

fn s(t: &str) -> String {
    t.to_string()
}

#[test]
fn writes_the_exact_record_format() {
    let out = write_event_json(1700000000123, &s("Safari"), &s("Docs"), 250);
    assert_eq!(
        out,
        r#"{"ts_ms":1700000000123,"app_name":"Safari","window_title":"Docs","input_idle_ms":250}"#
    );
}

#[test]
fn escapes_quotes_backslashes_and_controls() {
    let out = write_event_json(1, &s("A\"B"), &s("C\\D\nE"), 0);
    assert_eq!(
        out,
        "{\"ts_ms\":1,\"app_name\":\"A\\\"B\",\"window_title\":\"C\\\\D\\u000aE\",\"input_idle_ms\":0}"
    );
}

#[test]
fn written_records_are_valid_json() {
    let out = write_event_json(7, &s("App \u{00e9}\u{4e2d}"), &s("T\tab"), 9);
    let v: serde_json::Value = serde_json::from_str(&out).unwrap();
    assert_eq!(v["ts_ms"], 7);
    assert_eq!(v["app_name"], "App \u{00e9}\u{4e2d}");
    assert_eq!(v["window_title"], "T\tab");
    assert_eq!(v["input_idle_ms"], 9);
}

#[test]
fn parse_inverts_write() {
    let cases: Vec<(u64, &str, &str, u64)> = vec![
        (0, "", "", 0),
        (1700000000123, "Safari", "Docs", 250),
        (u64::MAX, "A\"B\\C", "new\nline", u64::MAX),
        (42, "caf\u{00e9}", "\u{4e2d}\u{6587}", 7),
        (5, "ctl\u{0001}", "\u{001f}", 6),
    ];
    for (ts, app, title, idle) in cases {
        let written = write_event_json(ts, &s(app), &s(title), idle);
        let parsed = parse_event_json(&written).expect("written record must parse");
        assert_eq!(parsed.0, ts);
        assert_eq!(parsed.1, app);
        assert_eq!(parsed.2, title);
        assert_eq!(parsed.3, idle);
    }
}

#[test]
fn parser_refuses_foreign_shapes() {
    let bad = [
        "",
        "{}",
        r#"{"ts_ms":1}"#,
        r#"{"app_name":"A","ts_ms":1,"window_title":"T","input_idle_ms":0}"#,
        r#"{"ts_ms":01,"app_name":"A","window_title":"T","input_idle_ms":0}"#,
        r#"{"ts_ms":1,"app_name":"A","window_title":"T","input_idle_ms":0} "#,
        r#"{"ts_ms":1,"app_name":"A","window_title":"T","input_idle_ms":0}x"#,
        r#"{"ts_ms":1,"app_name":"A","window_title":"T","input_idle_ms":18446744073709551616}"#,
        r#"{"ts_ms":1,"app_name":"A","window_title":"T","input_idle_ms":-1}"#,
        "{\"ts_ms\":1,\"app_name\":\"A\",\"window_title\":\"T\\u000AX\",\"input_idle_ms\":0}",
        "{\"ts_ms\":1,\"app_name\":\"\u{0007}\",\"window_title\":\"T\",\"input_idle_ms\":0}",
    ];
    for case in bad {
        assert!(parse_event_json(&s(case)).is_none(), "accepted: {:?}", case);
    }
}

#[test]
fn parser_accepts_exactly_the_canonical_escapes() {
    let ok = "{\"ts_ms\":1,\"app_name\":\"a\\\"b\\\\c\\u0001\",\"window_title\":\"\",\"input_idle_ms\":2}";
    let parsed = parse_event_json(&s(ok)).unwrap();
    assert_eq!(parsed.1, "a\"b\\c\u{0001}");
    assert_eq!(parsed.2, "");
}
