use cheatu::agent::{
    agent_hash, catalog_ts, current_agent_js, freeze_stat_max, gain_item, hash_in_plugin,
    inject_script_tag, ipc_dir, item_kind_named, max_stat_key, needs_update, plugin_path,
    read_catalog, set_switch, set_variable, snapshot, switch_word_on, web_root, Action,
    agent_template, Injection, ItemKind, SCRIPT_TAG,
};
use cheatu::json::{Json, JsonNumber};

fn s(x: &str) -> Json {
    Json::Str(x.to_string())
}

fn num_i(i: i64) -> Json {
    Json::Number(JsonNumber {
        int: Some(i),
        uint: if i >= 0 { Some(i as u64) } else { None },
        text: i.to_string(),
    })
}

fn obj(members: Vec<(&str, Json)>) -> Json {
    Json::Object(members.into_iter().map(|(k, v)| (k.to_string(), v)).collect())
}

/// FNV-1a over the template's bytes, as 16 hex digits.
fn reference_hash() -> String {
    let mut h: u64 = 0xcbf2_9ce4_8422_2325;
    for &b in agent_template().as_bytes() {
        h ^= b as u64;
        h = h.wrapping_mul(0x0000_0100_0000_01b3);
    }
    format!("{h:016x}")
}

#[test]
fn agent_hash_is_fnv1a_of_template() {
    let t = agent_template();
    assert!(t.starts_with("/*:\n * @plugindesc cheatu agent - file-IPC bridge for external control by cheatu.\n * cheatu-agent-hash: __CHEATU_HASH__\n */\n(function () {\n"));
    assert_eq!(t.matches("__CHEATU_HASH__").count(), 2);
    assert_eq!(agent_hash(), reference_hash());
    assert_eq!(agent_hash().len(), 16);
}

#[test]
fn current_agent_carries_its_hash() {
    let js = current_agent_js();
    let h = agent_hash();
    assert!(!js.contains("__CHEATU_HASH__"));
    assert_eq!(js, agent_template().replace("__CHEATU_HASH__", &h));
    // A freshly written plugin reports the current hash: no update needed.
    assert_eq!(hash_in_plugin(&js).as_deref(), Some(h.as_str()));
    assert!(!needs_update(true, Some(&h)));
}

#[test]
fn installed_hash_marker_parsing() {
    assert_eq!(
        hash_in_plugin("/* cheatu-agent-hash:  00ff12ab */").as_deref(),
        Some("00ff12ab")
    );
    assert_eq!(hash_in_plugin("cheatu-agent-hash: zz-9Fq").as_deref(), Some("9F"));
    assert_eq!(hash_in_plugin("cheatu-agent-hash: ---"), None);
    assert_eq!(hash_in_plugin("no marker 1234"), None);
}

#[test]
fn update_needed_only_for_an_installed_other_hash() {
    assert!(needs_update(true, Some("0000000000000000")));
    assert!(needs_update(true, None));
    assert!(!needs_update(false, Some("0000000000000000")));
}

#[test]
fn script_tag_goes_before_main_script() {
    let html = "<body>\n    <script type=\"text/javascript\" src=\"js/main.js\"></script>\n</body>";
    let out = match inject_script_tag(html).unwrap() {
        Injection::Insert(h) => h,
        Injection::Present => panic!("not yet injected"),
    };
    assert_eq!(
        out,
        format!(
            "<body>\n    {SCRIPT_TAG}\n    <script type=\"text/javascript\" src=\"js/main.js\"></script>\n</body>"
        )
    );
    // Injecting again leaves the page alone.
    assert!(matches!(inject_script_tag(&out), Ok(Injection::Present)));
    assert_eq!(
        inject_script_tag("<html></html>").unwrap_err(),
        "could not find js/main.js in index.html"
    );
    assert_eq!(
        inject_script_tag("src=\"js/main.js\"").unwrap_err(),
        "malformed index.html"
    );
}

#[test]
fn agent_paths() {
    assert_eq!(web_root("/g", true), "/g/www");
    assert_eq!(web_root("/g/", false), "/g/");
    assert_eq!(ipc_dir("/g/www"), "/g/www/cheatu");
    assert_eq!(plugin_path("/g/"), "/g/js/plugins/cheatu_agent.js");
}

fn eval_expr(a: Action) -> String {
    match a {
        Action::Eval { expr } => expr,
        other => panic!("expected an eval, got {other:?}"),
    }
}

#[test]
fn game_actions_as_javascript() {
    assert_eq!(
        eval_expr(gain_item(ItemKind::Weapon, 5, -2)),
        "$gameParty.gainItem($dataWeapons[5], -2)"
    );
    assert_eq!(ItemKind::Armor.data_array(), "$dataArmors");
    assert_eq!(eval_expr(set_variable(3, "\"hi\"")), "$gameVariables.setValue(3, \"hi\")");
    assert_eq!(eval_expr(set_switch(12, false)), "$gameSwitches.setValue(12, false)");
    assert_eq!(max_stat_key("hp", true), "max_hp_all");
    assert_eq!(max_stat_key("mp", false), "max_mp");
    assert_eq!(item_kind_named("weapon"), Some(ItemKind::Weapon));
    assert_eq!(item_kind_named("Weapon"), None);
    assert!(switch_word_on("true"));
    assert!(!switch_word_on("off"));
}

#[test]
fn freeze_at_max() {
    match freeze_stat_max("tp", false).unwrap() {
        Action::FreezeRun { key, run } => {
            assert_eq!(key, "max_tp");
            assert_eq!(run, "(function(){var a=$gameParty.leader();a._tp=a.maxTp();})();");
        }
        other => panic!("unexpected {other:?}"),
    }
    match freeze_stat_max("hp", true).unwrap() {
        Action::FreezeRun { key, run } => {
            assert_eq!(key, "max_hp_all");
            assert_eq!(run, "$gameParty.members().forEach(function(a){a._hp=a.mhp;});");
        }
        other => panic!("unexpected {other:?}"),
    }
    assert_eq!(freeze_stat_max("xp\"", true).unwrap_err(), "unknown stat \"xp\\\"\"");
}

#[test]
fn snapshot_reads_typed_fields() {
    let state = obj(vec![
        ("ts", num_i(1700)),
        ("agentHash", s("abc")),
        ("rpgmaker", Json::Bool(true)),
        ("engine", s("MZ")),
        ("gold", num_i(-3)),
        ("inBattle", Json::Bool(true)),
        (
            "party",
            Json::Array(vec![
                obj(vec![("id", num_i(1)), ("name", s("Reid")), ("hp", num_i(40)), ("mhp", num_i(50))]),
                obj(vec![("name", num_i(7))]),
            ]),
        ),
        ("freezes", Json::Array(vec![s("max_hp"), num_i(3), s("g")])),
    ]);
    let snap = snapshot(&state);
    assert_eq!(snap.ts, 1700);
    assert!(snap.rpgmaker);
    assert_eq!(snap.engine, "MZ");
    assert_eq!(snap.title, "");
    assert_eq!(snap.gold, Some(-3));
    assert!(snap.in_battle);
    assert!(!snap.stopped);
    assert_eq!(snap.error, None);
    assert_eq!(snap.agent_hash.as_deref(), Some("abc"));
    assert_eq!(snap.party.len(), 2);
    assert_eq!(snap.party[0].name, "Reid");
    assert_eq!((snap.party[0].hp, snap.party[0].mhp, snap.party[0].mp), (40, 50, 0));
    assert_eq!(snap.party[1].name, "?");
    assert_eq!(snap.freezes, vec!["max_hp".to_string(), "g".to_string()]);
    let empty = snapshot(&Json::Null);
    assert_eq!(empty.ts, 0);
    assert!(empty.party.is_empty());
}

#[test]
fn catalog_from_query_file() {
    let query = obj(vec![
        ("key", s("catalog")),
        ("ts", num_i(99)),
        (
            "value",
            obj(vec![
                (
                    "items",
                    Json::Array(vec![obj(vec![("id", num_i(4)), ("name", s("Potion")), ("count", num_i(2))])]),
                ),
                (
                    "variables",
                    Json::Array(vec![obj(vec![("id", num_i(1)), ("name", s("Day")), ("value", num_i(3))])]),
                ),
            ]),
        ),
    ]);
    let c = read_catalog(&query).unwrap();
    assert_eq!(c.items.len(), 1);
    assert_eq!((c.items[0].id, c.items[0].name.as_str(), c.items[0].count), (4, "Potion", 2));
    assert!(c.weapons.is_empty() && c.armors.is_empty() && c.switches.is_empty());
    assert_eq!(c.variables[0].name, "Day");
    assert_eq!(c.variables[0].value.as_i64(), Some(3));
    assert_eq!(catalog_ts(&query), Some(99));

    let other = obj(vec![("key", s("query")), ("ts", num_i(5))]);
    assert!(read_catalog(&other).is_none());
    assert_eq!(catalog_ts(&other), None);
    let no_value = obj(vec![("key", s("catalog"))]);
    assert!(read_catalog(&no_value).is_none());
}
