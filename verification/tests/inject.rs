use cheatu::cdp::{eval_outcome, http_body, http_body_text, http_request, page_target, reply_for, Reply};
use cheatu::config::{
    chromium_args, debugging_args, manifest_backup_path, manifest_path, DEFAULT_PORT,
};
use cheatu::detect::{detect_dir, is_nwjs_dir, scan_dir, DirProbe, Engine, FoundGame};
use cheatu::fspath::join_path;
use cheatu::json::{Json, JsonNumber};
use cheatu::rpgmaker::{party_names, set_gold_js, set_switch_js, variable_js, GOLD_JS};

fn s(x: &str) -> Json {
    Json::Str(x.to_string())
}

fn num(u: u64) -> Json {
    Json::Number(JsonNumber { int: i64::try_from(u).ok(), uint: Some(u), text: u.to_string() })
}

fn obj(members: Vec<(&str, Json)>) -> Json {
    Json::Object(members.into_iter().map(|(k, v)| (k.to_string(), v)).collect())
}

fn probe() -> DirProbe {
    DirProbe {
        www_is_dir: false,
        www_mz_core: false,
        www_mv_core: false,
        mz_core: false,
        mv_core: false,
        nw_exe: false,
        nw: false,
        nw_dll: false,
        package_json: false,
    }
}

#[test]
fn engine_detection() {
    let mut p = probe();
    assert_eq!(detect_dir(&p), Engine::Unknown);
    p.package_json = true;
    assert_eq!(detect_dir(&p), Engine::Unknown);
    p.www_is_dir = true;
    assert!(is_nwjs_dir(&p));
    assert_eq!(detect_dir(&p), Engine::Nwjs);
    // With a www directory the cores are looked for under it.
    p.mz_core = true;
    assert_eq!(detect_dir(&p), Engine::Nwjs);
    p.www_mv_core = true;
    assert_eq!(detect_dir(&p), Engine::RpgMakerMV);
    p.www_mz_core = true;
    assert_eq!(detect_dir(&p), Engine::RpgMakerMZ);
    let mut q = probe();
    q.mv_core = true;
    assert_eq!(detect_dir(&q), Engine::RpgMakerMV);
    assert!(Engine::RpgMakerMZ.is_rpgmaker() && Engine::RpgMakerMZ.is_nwjs());
    assert!(!Engine::Nwjs.is_rpgmaker() && Engine::Nwjs.is_nwjs());
    assert!(!Engine::Unknown.is_nwjs());
    assert_eq!(Engine::Unknown.label(), "unknown / native");
    assert_eq!(Engine::RpgMakerMV.label(), "RPG Maker MV");
}

fn game(path: &str, name: &str, engine: Engine) -> FoundGame {
    FoundGame { path: path.to_string(), name: name.to_string(), engine }
}

#[test]
fn scan_dir_dedups_and_sorts() {
    let visited = vec![
        game("/lib/zeta", "zeta", Engine::Nwjs),
        game("/lib/Alpha", "Alpha", Engine::RpgMakerMZ),
        game("/lib/native", "native", Engine::Unknown),
        game("/lib/zeta", "zeta", Engine::Nwjs),
        game("/other/alpha", "alpha", Engine::RpgMakerMV),
    ];
    let out = scan_dir(visited);
    let paths: Vec<&str> = out.iter().map(|g| g.path.as_str()).collect();
    assert_eq!(paths, vec!["/lib/Alpha", "/other/alpha", "/lib/zeta"]);
    assert!(scan_dir(Vec::new()).is_empty());
}

#[test]
fn manifest_paths_and_debugging_args() {
    assert_eq!(manifest_path("/games/x"), "/games/x/package.json");
    assert_eq!(manifest_backup_path("/games/x/"), "/games/x/package.json.cheatu-bak");
    assert_eq!(join_path("", "a"), "a");
    assert_eq!(DEFAULT_PORT, 9222);
    assert_eq!(debugging_args("", 9222).as_deref(), Some("--remote-debugging-port=9222"));
    assert_eq!(
        debugging_args("--disable-gpu", 80).as_deref(),
        Some("--disable-gpu --remote-debugging-port=80")
    );
    assert_eq!(debugging_args("--remote-debugging-port=1", 9222), None);
    let manifest = obj(vec![("main", s("www/index.html")), ("chromium-args", s("--x"))]);
    assert_eq!(chromium_args(&manifest), "--x");
    assert_eq!(chromium_args(&obj(vec![("chromium-args", num(3))])), "");
}

#[test]
fn evaluation_results_and_errors() {
    let ok = obj(vec![("result", obj(vec![("type", s("number")), ("value", num(42))]))]);
    assert_eq!(eval_outcome(&ok).unwrap().as_u64(), Some(42));
    let undefined = obj(vec![("result", obj(vec![("type", s("undefined"))]))]);
    assert!(matches!(eval_outcome(&undefined), Ok(Json::Null)));
    let thrown = obj(vec![(
        "exceptionDetails",
        obj(vec![
            ("text", s("Uncaught")),
            ("exception", obj(vec![("description", s("ReferenceError: x"))])),
        ]),
    )]);
    assert_eq!(eval_outcome(&thrown).unwrap_err(), "ReferenceError: x");
    let bare = obj(vec![("exceptionDetails", obj(vec![("text", s("Uncaught"))]))]);
    assert_eq!(eval_outcome(&bare).unwrap_err(), "Uncaught");
    let empty = obj(vec![("exceptionDetails", obj(vec![]))]);
    assert_eq!(eval_outcome(&empty).unwrap_err(), "JavaScript error");
}

#[test]
fn replies_are_matched_by_id() {
    let event = obj(vec![("method", s("Runtime.consoleAPICalled"))]);
    assert!(matches!(reply_for(&event, 1), Reply::Other));
    let other = obj(vec![("id", num(2)), ("result", obj(vec![]))]);
    assert!(matches!(reply_for(&other, 1), Reply::Other));
    let done = obj(vec![("id", num(1)), ("result", obj(vec![("x", num(1))]))]);
    match reply_for(&done, 1) {
        Reply::Done(r) => assert_eq!(r.get("x").and_then(|x| x.as_u64()), Some(1)),
        other => panic!("unexpected {other:?}"),
    }
    let failed = obj(vec![("id", num(1)), ("error", obj(vec![("code", num(5))]))]);
    assert!(matches!(reply_for(&failed, 1), Reply::Failed(_)));
}

#[test]
fn page_target_prefers_index_page() {
    let targets = Json::Array(vec![
        obj(vec![("type", s("service_worker")), ("webSocketDebuggerUrl", s("ws://sw"))]),
        obj(vec![("type", s("page")), ("url", s("about:blank")), ("webSocketDebuggerUrl", s("ws://a"))]),
        obj(vec![("type", s("page")), ("url", s("file:///g/index.html")), ("webSocketDebuggerUrl", s("ws://b"))]),
    ]);
    assert_eq!(page_target(&targets).unwrap(), "ws://b");
    let fallback = Json::Array(vec![
        obj(vec![("type", s("page")), ("webSocketDebuggerUrl", s("ws://first"))]),
        obj(vec![("type", s("page")), ("webSocketDebuggerUrl", s("ws://second"))]),
    ]);
    assert_eq!(page_target(&fallback).unwrap(), "ws://first");
    assert_eq!(page_target(&Json::Array(vec![])).unwrap_err(), "no debuggable page target found");
    assert_eq!(page_target(&obj(vec![])).unwrap_err(), "unexpected /json response");
}

#[test]
fn http_bodies() {
    assert_eq!(
        http_body(b"HTTP/1.1 200 OK\r\nContent-Type: application/json\r\n\r\n[1]\r\n\r\nx").unwrap(),
        "[1]\r\n\r\nx"
    );
    assert_eq!(http_body(b"HTTP/1.1 200 OK\r\n\r\n  \n").unwrap_err(), "empty response");
    assert_eq!(http_body_text("no header break").unwrap_err(), "empty response");
    assert_eq!(
        http_request("/json/list", 9222),
        "GET /json/list HTTP/1.1\r\nHost: 127.0.0.1:9222\r\nAccept: application/json\r\nConnection: close\r\n\r\n"
    );
}

#[test]
fn rpgmaker_javascript() {
    assert_eq!(set_gold_js(-5), "$gameParty._gold = Math.min(-5, $gameParty.maxGold())");
    assert_eq!(variable_js(12), "$gameVariables.value(12)");
    assert_eq!(set_switch_js(3, true), "$gameSwitches.setValue(3, true)");
    assert_eq!(GOLD_JS, "$gameParty.gold()");
    let names = Json::Array(vec![s("Reid"), num(3), s("Priscilla")]);
    assert_eq!(party_names(&names), vec!["Reid".to_string(), "?".to_string(), "Priscilla".to_string()]);
    assert!(party_names(&Json::Null).is_empty());
}
