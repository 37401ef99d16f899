use evix::json::{derivation_value, diff_line, event_line, event_value, format_event, parse_event_line, parse_event_value};
use evix::json_value::{read_json, read_texts, take_texts, write_json, Json};
use evix::key_order::in_key_order;
use evix::keyed_map::KeyedMap;
use evix::{Derivation, Diff, EvalError, Event};

fn drv() -> Derivation {
    let mut outputs = KeyedMap::new();
    outputs.insert("out".to_string(), None);
    let mut input_drvs = KeyedMap::new();
    input_drvs.insert("/nix/store/input.drv".to_string(), vec!["out".to_string()]);
    Derivation {
        attr: "pkg".into(),
        attr_path: vec!["pkg".into()],
        name: "pkg".into(),
        system: "x86_64-linux".into(),
        drv_path: "/nix/store/pkg.drv".into(),
        outputs,
        meta: None,
        input_drvs,
        constituents: None,
        gc_root_error: None,
    }
}

fn same_json(text: &str, expected: &str) {
    let text: serde_json::Value = serde_json::from_str(text).unwrap();
    let expected: serde_json::Value = serde_json::from_str(expected).unwrap();
    assert_eq!(text, expected);
}

fn parse_error(line: &str) -> String {
    parse_event_line(line).unwrap_err().message()
}

#[test]
fn parses_flat_derivation_event() {
    let event = parse_event_line(
        r#"{"attr":"pkg","attrPath":["pkg"],"name":"pkg","system":"x86_64-linux","drvPath":"/nix/store/pkg.drv","outputs":{"out":null},"inputDrvs":{"/nix/store/input.drv":["out"]},"gcRootError":"link failed"}"#,
    )
    .unwrap();

    let Event::Derivation(drv) = event else {
        panic!("expected derivation");
    };
    assert_eq!(drv.attr, "pkg");
    assert_eq!(drv.system, "x86_64-linux");
    assert_eq!(drv.outputs.get(&"out".to_string()), Some(&None));
    assert_eq!(
        drv.input_drvs.get(&"/nix/store/input.drv".to_string()),
        Some(&vec!["out".to_string()])
    );
    assert_eq!(drv.gc_root_error.as_deref(), Some("link failed"));
}

#[test]
fn cli_event_value_flattens_derivation_event() {
    let event = Event::Derivation(drv());

    same_json(
        &write_json(&event_value(&event)),
        r#"{
            "attr": "pkg",
            "attrPath": ["pkg"],
            "name": "pkg",
            "system": "x86_64-linux",
            "drvPath": "/nix/store/pkg.drv",
            "outputs": {"out": null},
            "inputDrvs": {"/nix/store/input.drv": ["out"]}
        }"#,
    );
}

#[test]
fn attr_sets_are_flat_too() {
    let event = Event::AttrSet {
        attr: "packages".into(),
        attr_path: vec!["packages".into()],
        attrs: vec!["hello".into()],
    };
    same_json(
        &event_line(&event),
        r#"{"attr": "packages", "attrPath": ["packages"], "attrs": ["hello"]}"#,
    );
}

#[test]
fn parses_flat_error_event() {
    let event = parse_event_line(r#"{"attr":"bad","attrPath":["bad"],"error":"boom","fatal":false}"#).unwrap();

    let Event::Error(error) = event else {
        panic!("expected error");
    };
    assert_eq!(error.error, "boom");
    assert!(!error.fatal);
}

#[test]
fn event_lines_are_read_back() {
    let mut full = drv();
    full.meta = read_json(r#"{"description":"a \"quoted\" one","priority":-5,"size":1.5,"broken":false,"list":[1,null]}"#).ok();
    full.constituents = Some(vec!["a".into(), "b".into()]);
    full.gc_root_error = Some("link failed".into());
    full.outputs.insert("dev".into(), Some("/nix/store/dev".into()));
    let events = [
        Event::Derivation(drv()),
        Event::Derivation(full),
        Event::AttrSet { attr: "".into(), attr_path: vec![], attrs: vec!["a".into(), "b.c".into()] },
        Event::Error(EvalError { attr: "x".into(), attr_path: vec!["x".into()], error: "boom\nagain".into(), fatal: true }),
    ];
    for event in events {
        let line = event_line(&event);
        assert!(!line.contains('\n'));
        let read = parse_event_line(&line).unwrap();
        assert_eq!(event_line(&read), line);
        assert_eq!(read.attr(), event.attr());
        assert_eq!(read.attr_path(), event.attr_path());
    }
}

#[test]
fn optional_fields_are_left_out_or_written() {
    let mut event = drv();
    event.input_drvs = KeyedMap::new();
    event.meta = Some(Json::Object(vec![("a".into(), Json::Unsigned(1)), ("a".into(), Json::Unsigned(2))]));
    event.constituents = Some(vec![]);
    event.gc_root_error = Some("link failed".into());
    same_json(
        &write_json(&derivation_value(&event)),
        r#"{"attr":"pkg","attrPath":["pkg"],"name":"pkg","system":"x86_64-linux","drvPath":"/nix/store/pkg.drv",
            "outputs":{"out":null},"meta":{"a":2},"constituents":[],"gcRootError":"link failed"}"#,
    );
}

#[test]
fn the_one_shot_line_has_no_gc_root_error() {
    let mut event = drv();
    event.gc_root_error = Some("link failed".into());
    let line = format_event(&Event::Derivation(event));
    assert!(!line.contains("gcRootError"));
    assert_eq!(line, format_event(&Event::Derivation(drv())));
}

#[test]
fn diff_lines() {
    let diff = Diff {
        added: vec![drv()],
        removed: vec![],
        errors: vec![EvalError { attr: "x".into(), attr_path: vec!["x".into()], error: "boom".into(), fatal: false }],
    };
    same_json(
        &diff_line(&diff),
        r#"{"added":[{"attr":"pkg","attrPath":["pkg"],"name":"pkg","system":"x86_64-linux",
            "drvPath":"/nix/store/pkg.drv","outputs":{"out":null},"inputDrvs":{"/nix/store/input.drv":["out"]}}],
            "removed":[],
            "errors":[{"attr":"x","attr_path":["x"],"error":"boom","fatal":false}]}"#,
    );
}

#[test]
fn each_unreadable_event_has_its_message() {
    assert_eq!(parse_error("not json"), "parsing event line");
    assert_eq!(parse_error("{}"), "missing string field \"attr\"");
    assert_eq!(parse_error("[]"), "missing string field \"attr\"");
    assert_eq!(parse_error(r#"{"attr":"a","error":"x"}"#), "missing string list field \"attrPath\"");
    assert_eq!(parse_error(r#"{"attr":"a","attrPath":"a","error":"x"}"#), "parsing field \"attrPath\"");
    assert!(matches!(
        parse_event_line(r#"{"attr":"a","attrPath":["a"],"attrs":[1]}"#),
        Ok(Event::AttrSet { attrs, .. }) if attrs.is_empty()
    ));
    assert_eq!(
        parse_error(
            r#"{"attr":"a","attrPath":["a"],"name":"n","system":"s","drvPath":"d","inputDrvs":{"x":[1]}}"#
        ),
        "parsing inputDrvs"
    );
    assert_eq!(
        parse_error(r#"{"attr":"a","attrPath":["a"],"name":"n","system":"s","drvPath":"d","constituents":{}}"#),
        "parsing constituents"
    );
    assert_eq!(parse_event_value(&Json::Null).unwrap_err().message(), "missing string field \"attr\"");
}

fn no_texts(text: &str) -> String {
    let value: serde_json::Value = serde_json::from_str(text).unwrap();
    serde_json::from_value::<Vec<String>>(value).unwrap_err().to_string()
}

#[test]
fn unreadable_events_keep_what_is_behind_them() {
    let cause = |line: &str| parse_event_line(line).unwrap_err().cause();
    let not_json = serde_json::from_str::<serde_json::Value>("not json").unwrap_err();
    assert_eq!(cause("not json"), Some(not_json.to_string()));
    assert_eq!(cause("{}"), None);
    assert_eq!(cause(r#"{"attr":"a","error":"x"}"#), None);
    assert_eq!(cause(r#"{"attr":"a","attrPath":["a",1.5],"error":"x"}"#), Some(no_texts(r#"["a",1.5]"#)));
    let drv = |rest: &str| format!(r#"{{"attr":"a","attrPath":["a"],"name":"n","system":"s","drvPath":"d",{rest}}}"#);
    assert_eq!(
        cause(&drv(r#""inputDrvs":{"y":"last","x":[true],"a":[]}"#)),
        Some(no_texts("[true]"))
    );
    assert_eq!(cause(&drv(r#""constituents":{}"#)), Some(no_texts("{}")));
}

#[test]
fn values_are_taken_for_lists_of_strings() {
    let texts = |text: &str| take_texts(&read_json(text).unwrap());
    assert_eq!(texts(r#"["b","a",""]"#).unwrap(), ["b", "a", ""]);
    assert!(texts("[]").unwrap().is_empty());
    for other in ["null", "1", "\"a\"", "{}", "[null]", "[\"a\",-1]", "[[\"a\"]]"] {
        assert_eq!(texts(other).unwrap_err(), no_texts(other));
    }
    assert_eq!(read_texts(r#" ["b","a"] "#).unwrap(), ["b", "a"]);
    for other in ["", "[", "[1]", "{}", "[\"a\"] x"] {
        let error = serde_json::from_str::<Vec<String>>(other).unwrap_err();
        assert_eq!(read_texts(other).unwrap_err(), error.to_string());
    }
}

#[test]
fn entries_are_put_in_the_order_of_their_keys() {
    let entries = |keys: &[&str]| keys.iter().map(|key| (key.to_string(), Json::Null)).collect::<Vec<_>>();
    assert!(in_key_order(&entries(&[])).is_empty());
    assert_eq!(in_key_order(&entries(&["b", "a", "ab", "", "B", "\u{e9}", "z"])), [3, 4, 1, 2, 0, 6, 5]);
    assert_eq!(in_key_order(&entries(&["b", "a", "b", "a"])), [3, 2]);
}

#[test]
fn json_values_are_written_and_read() {
    let text = r#"{"a":[null,true,0,18446744073709551615,-1,-9223372036854775808,0.1,1e300,"é\n\""],"b":{}}"#;
    let value = read_json(text).unwrap();
    same_json(&write_json(&value), text);
    assert_eq!(write_json(&value), write_json(&read_json(&write_json(&value)).unwrap()));
    let Json::Object(fields) = value else {
        panic!("expected an object");
    };
    let Json::Array(items) = &fields[0].1 else {
        panic!("expected an array");
    };
    assert!(matches!(items[3], Json::Unsigned(18446744073709551615)));
    assert!(matches!(items[4], Json::Negative(-1)));
    assert!(matches!(items[6], Json::Float(_)));
    for bad in ["{", "", "[1,]", "nul"] {
        let error = serde_json::from_str::<serde_json::Value>(bad).unwrap_err();
        assert_eq!(read_json(bad).unwrap_err(), error.to_string());
    }
    assert_eq!(write_json(&Json::Text("a\"b".into())), "\"a\\\"b\"");
}
