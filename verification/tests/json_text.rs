use cheatu::agent::{
    action_json, catalog_text, catalog_ts_text, command_json, int_json, snapshot_text, state_text,
    Action,
};
use cheatu::cdp::{call_json, evaluate_params, no_params, page_target_text, reply_text, Reply};
use cheatu::config::{enable_manifest, enabled_manifest_of};
use cheatu::json::{js_value, json_pretty_text, json_text, parse_json, Json};

#[test]
fn json_text_parses_into_the_model() {
    let v = parse_json(r#"{"a": [1, -2, 3.5, true, null, "x"], "b": 18446744073709551615}"#).unwrap();
    let a = v.get("a").and_then(|x| x.as_array()).unwrap();
    assert_eq!(a.len(), 6);
    assert_eq!(a[0].as_i64(), Some(1));
    assert_eq!(a[1].as_i64(), Some(-2));
    assert_eq!(a[1].as_u64(), None);
    assert_eq!(a[2].as_i64(), None);
    assert_eq!(a[3].as_bool(), Some(true));
    assert!(matches!(a[4], Json::Null));
    assert_eq!(a[5].as_str(), Some("x"));
    assert_eq!(v.get("b").and_then(|x| x.as_u64()), Some(u64::MAX));
    assert!(parse_json("{").is_err());
    assert!(parse_json("").is_err());
}

#[test]
fn typed_values_fall_back_to_strings() {
    assert_eq!(js_value("12").as_i64(), Some(12));
    assert_eq!(js_value("true").as_bool(), Some(true));
    assert_eq!(js_value("hello").as_str(), Some("hello"));
    assert_eq!(js_value("\"q\"").as_str(), Some("q"));
}

#[test]
fn state_file_text_becomes_a_snapshot() {
    let snap = snapshot_text(r#"{"ts": 5, "gold": 100, "party": [{"name": "Reid", "hp": 3}], "freezes": ["gold"]}"#)
        .unwrap();
    assert_eq!(snap.ts, 5);
    assert_eq!(snap.gold, Some(100));
    assert_eq!(snap.party[0].name, "Reid");
    assert_eq!(snap.party[0].hp, 3);
    assert_eq!(snap.freezes, vec!["gold".to_string()]);
    let err = snapshot_text("not json").unwrap_err();
    assert!(err.starts_with("parse state.json: "), "{err}");
    assert!(state_text("[]").is_ok());
}

#[test]
fn query_file_text_becomes_a_catalog() {
    let text = r#"{"key": "catalog", "ts": 42, "value": {"items": [{"id": 1, "name": "Potion", "count": 3}]}}"#;
    let c = catalog_text(text).unwrap();
    assert_eq!(c.items[0].name, "Potion");
    assert_eq!(catalog_ts_text(text), Some(42));
    assert!(catalog_text("garbage").is_none());
    assert_eq!(catalog_ts_text(r#"{"key": "query", "ts": 1}"#), None);
}

#[test]
fn manifest_text_gets_the_debugging_flag() {
    let m = enable_manifest(r#"{"main": "www/index.html", "chromium-args": "--x"}"#, 9222).unwrap().unwrap();
    assert_eq!(m.get("chromium-args").and_then(|x| x.as_str()), Some("--x --remote-debugging-port=9222"));
    assert_eq!(m.get("main").and_then(|x| x.as_str()), Some("www/index.html"));
    let added = enable_manifest(r#"{"main": "a"}"#, 80).unwrap().unwrap();
    assert_eq!(added.get("chromium-args").and_then(|x| x.as_str()), Some("--remote-debugging-port=80"));
    assert!(enable_manifest(r#"{"chromium-args": "--remote-debugging-port=1"}"#, 80).unwrap().is_none());
    assert!(enable_manifest("{", 80).unwrap_err().starts_with("parse package.json: "));
    assert_eq!(enable_manifest("[1]", 80).unwrap_err(), "package.json is not a JSON object");
}

#[test]
fn parsed_manifest_gets_the_debugging_flag() {
    let m = Json::Object(vec![("chromium-args".to_string(), Json::Str("--x".to_string()))]);
    let out = enabled_manifest_of(&m, 9222).unwrap().unwrap();
    assert_eq!(out.get("chromium-args").and_then(|x| x.as_str()), Some("--x --remote-debugging-port=9222"));
    let fresh = enabled_manifest_of(&Json::Null, 80).unwrap().unwrap();
    assert_eq!(fresh.get("chromium-args").and_then(|x| x.as_str()), Some("--remote-debugging-port=80"));
    let on = Json::Object(vec![(
        "chromium-args".to_string(),
        Json::Str("--remote-debugging-port=1".to_string()),
    )]);
    assert!(enabled_manifest_of(&on, 80).unwrap().is_none());
    assert_eq!(enabled_manifest_of(&Json::Bool(true), 80).unwrap_err(), "package.json is not a JSON object");
}

#[test]
fn devtools_text_replies() {
    match reply_text(r#"{"id": 3, "result": {"v": 1}}"#, 3).unwrap() {
        Reply::Done(r) => assert_eq!(r.get("v").and_then(|x| x.as_u64()), Some(1)),
        other => panic!("unexpected {other:?}"),
    }
    assert!(matches!(reply_text(r#"{"id": 4}"#, 3).unwrap(), Reply::Other));
    assert!(reply_text("x", 3).unwrap_err().starts_with("parse: "));
    assert_eq!(
        page_target_text(r#"[{"type": "page", "webSocketDebuggerUrl": "ws://p"}]"#).unwrap(),
        "ws://p"
    );
    assert!(page_target_text("<html>").unwrap_err().starts_with("bad /json response: "));
}

#[test]
fn actions_as_agent_commands() {
    let a = action_json(&Action::Assign { expr: "$gameParty._gold".into(), value: js_value("5") });
    assert_eq!(a.get("type").and_then(|x| x.as_str()), Some("set"));
    assert_eq!(a.get("expr").and_then(|x| x.as_str()), Some("$gameParty._gold"));
    assert_eq!(a.get("value").and_then(|x| x.as_i64()), Some(5));
    let f = action_json(&Action::FreezeRun { key: "k".into(), run: "r()".into() });
    assert_eq!(f.get("type").and_then(|x| x.as_str()), Some("freeze"));
    assert_eq!(f.get("run").and_then(|x| x.as_str()), Some("r()"));
    assert!(f.get("expr").is_none());
    let w = action_json(&Action::Watch { exprs: vec!["a".into(), "b".into()] });
    assert_eq!(w.get("exprs").and_then(|x| x.as_array()).map(|v| v.len()), Some(2));
    let c = action_json(&Action::Catalog);
    assert_eq!(c.get("type").and_then(|x| x.as_str()), Some("catalog"));
    let cmd = command_json(1700000000000, &[Action::Recover, Action::BattleWin]);
    assert_eq!(cmd.get("id").and_then(|x| x.as_u64()), Some(1700000000000));
    let acts = cmd.get("actions").and_then(|x| x.as_array()).unwrap();
    assert_eq!(acts[1].get("type").and_then(|x| x.as_str()), Some("battle_win"));
}

#[test]
fn json_values_written_as_text() {
    let cmd = command_json(7, &[Action::Eval { expr: "x=1".into() }]);
    assert_eq!(json_text(&cmd), r#"{"actions":[{"expr":"x=1","type":"eval"}],"id":7}"#);
    assert_eq!(json_text(&int_json(-3)), "-3");
    assert_eq!(json_text(&js_value("[1.5, \"a\"]")), r#"[1.5,"a"]"#);
    let m = parse_json(r#"{"b": 1, "a": [true]}"#).unwrap();
    assert_eq!(json_pretty_text(&m), "{\n  \"a\": [\n    true\n  ],\n  \"b\": 1\n}");
    let req = call_json(3, "Runtime.evaluate", evaluate_params("1+1"));
    assert_eq!(
        json_text(&req),
        r#"{"id":3,"method":"Runtime.evaluate","params":{"awaitPromise":true,"expression":"1+1","replMode":true,"returnByValue":true}}"#
    );
    assert_eq!(json_text(&call_json(1, "Runtime.enable", no_params())), r#"{"id":1,"method":"Runtime.enable","params":{}}"#);
}
