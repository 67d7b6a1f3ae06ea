//! The in-game agent: a JavaScript plugin injected into an RPG Maker MV/MZ
//! game, and what the host needs to install and drive it.
//!
//! Chromium's remote-debugging server does not start under Wine/Proton, so an
//! external debugger cannot attach; but the game's own NW.js runtime has Node
//! `fs`, and Wine's `Z:` drive maps to the Linux root. The agent and cheatu
//! therefore exchange JSON through plain files in the game folder: the host
//! writes actions to `cheatu/cmd.json`, the agent reports to
//! `cheatu/state.json` and `cheatu/query.json`. The agent applies changes
//! through the game's own data model, which keeps the game stable.
//!
//! Reading and writing those files, and writing JSON text, is the caller's part.

use vstd::prelude::*;
use vstd::string::StringSliceAdditionalSpecFns;
use crate::fspath::{join_path, joined};
use crate::json::{
    as_int, as_items, as_text, as_uint, copy_json, flag_of, flag_or_false, get, int_of, int_or_zero, items_of, items_view, lemma_items_view, opt_view, owned_text, text_of,
    text_or, text_or_default, uint_of, json_parse, lemma_members_view, members_view, parse_json,
    prefixed, Json, JsonNumber, JsonV,
};
use crate::numeral::{pad_zeros, render, render_i64, render_int, render_u64, zero_pad};
use crate::text::{
    append_chars, chars_of, contains, find_first, lemma_first_from, lemma_replaced_lead,
    lemma_replaced_skip, lemma_replaced_clears, foreign, occurs_at, find_last, first_index, is_hex, is_hex_char, last_index,
    lit, push_str, replace_all, replaced, string_of, text_eq,
};

verus! {

/// The plugin's header comment, up to its checksum field.
pub const AGENT_HEAD: &'static str = "/*:\n * @plugindesc cheatu agent - file-IPC bridge for external control by cheatu.\n * cheatu-agent-hash: ";

/// What the checksum is written over, in the header and in the code.
pub const HASH_PLACEHOLDER: &'static str = "__CHEATU_HASH__";

/// The end of the plugin's header comment.
pub const AGENT_HEAD_END: &'static str = "\n */\n";

/// The plugin's code. It polls `cheatu/cmd.json` for actions, re-applies
/// frozen values every tick, and writes live values to `cheatu/state.json`.
pub const AGENT_CODE: &'static str = r#"(function () {
  try {
    var AGENT_HASH = "__CHEATU_HASH__";
    var fs = require('fs');
    var path = require('path');
    var base;
    try { base = path.dirname(process.mainModule.filename); }
    catch (e) { base = path.dirname(decodeURIComponent(window.location.pathname)); }
    var dir = path.join(base, 'cheatu');
    try { fs.mkdirSync(dir); } catch (e) {}
    var cmdFile = path.join(dir, 'cmd.json');
    var stateFile = path.join(dir, 'state.json');
    var queryFile = path.join(dir, 'query.json');
    var freezes = {};
    var lastCmd = 0;
    window.__cheatuWatch = window.__cheatuWatch || [];

    function apply(expr, value) { eval(expr + ' = ' + JSON.stringify(value)); }

    function writeQuery(o) { try { fs.writeFileSync(queryFile, JSON.stringify(o)); } catch (e) {} }

    // Try to resume the game after a JavaScript exception froze it — clear the
    // stopped/error state and kick the update loop again. Our setInterval keeps
    // running even when the game's own render loop has died, so this can undo a
    // crash that would otherwise force a relaunch.
    function removeErrorOverlay() {
      // RPG Maker's error display both dims/blurs the game canvas (a CSS filter
      // with no built-in undo) and shows an error <p>. Clear both — the canvas
      // filter is the "transparent overlay" that lingers after a recover.
      try {
        if (typeof Graphics !== 'undefined') {
          if (Graphics._canvas && Graphics._canvas.style) {
            Graphics._canvas.style.opacity = 1;
            Graphics._canvas.style.filter = '';
            Graphics._canvas.style.webkitFilter = '';
          }
          try { Graphics._errorShowed = false; } catch (e) {}
          if (Graphics._errorPrinter && Graphics._errorPrinter.style) {
            Graphics._errorPrinter.style.display = 'none';
          }
        }
      } catch (e) {}
      try {
        ['ErrorPrinter', 'errorPrinter'].forEach(function (id) {
          var el = document.getElementById(id);
          if (el && el.style) el.style.display = 'none';
        });
      } catch (e) {}
    }

    function recover() {
      if (typeof SceneManager === 'undefined') return;
      SceneManager._stopped = false;
      try { SceneManager._error = null; } catch (e) {}
      removeErrorOverlay();
      if (typeof SceneManager.requestUpdate === 'function') {
        SceneManager.requestUpdate();
      } else if (typeof requestAnimationFrame === 'function') {
        requestAnimationFrame(function () { try { SceneManager.update(); } catch (e) {} });
      }
    }

    // Enumerate a database array ($dataItems/$dataWeapons/$dataArmors) into
    // {id, name, count-owned}. Standard MV/MZ layout: index 0 is null.
    function collectDb(db) {
      var r = [];
      if (!db) return r;
      for (var i = 1; i < db.length; i++) {
        var d = db[i];
        if (d && d.name) {
          var count = 0;
          try { count = $gameParty.numItems(d); } catch (e) {}
          r.push({ id: d.id, name: d.name, count: count });
        }
      }
      return r;
    }

    // Enumerate named variables/switches ($dataSystem.variables / .switches),
    // skipping the unnamed (unused) slots.
    function collectNamed(names, getVal) {
      var r = [];
      if (!names) return r;
      for (var i = 1; i < names.length; i++) {
        if (names[i]) {
          var v = null;
          try { v = getVal(i); } catch (e) {}
          r.push({ id: i, name: names[i], value: v });
        }
      }
      return r;
    }

    function buildCatalog() {
      var sys = (typeof $dataSystem !== 'undefined' && $dataSystem) || {};
      return {
        items: collectDb(typeof $dataItems !== 'undefined' ? $dataItems : null),
        weapons: collectDb(typeof $dataWeapons !== 'undefined' ? $dataWeapons : null),
        armors: collectDb(typeof $dataArmors !== 'undefined' ? $dataArmors : null),
        variables: collectNamed(sys.variables, function (i) { return $gameVariables.value(i); }),
        switches: collectNamed(sys.switches, function (i) { return $gameSwitches.value(i); })
      };
    }

    function handle(cmd) {
      if (!cmd || !cmd.actions) return;
      cmd.actions.forEach(function (a) {
        try {
          switch (a.type) {
            case 'set': apply(a.expr, a.value); break;
            case 'eval': eval(a.expr); break;
            // A freeze either sets expr=value each tick, or runs a statement
            // (a.run) each tick — the latter allows "keep X at its max".
            case 'freeze': freezes[a.key] = a.run ? { run: a.run } : { expr: a.expr, value: a.value }; break;
            case 'unfreeze': delete freezes[a.key]; break;
            case 'unfreeze_all': freezes = {}; break;
            case 'watch': window.__cheatuWatch = a.exprs || []; break;
            case 'catalog': writeQuery({ key: 'catalog', ts: Date.now(), value: buildCatalog() }); break;
            case 'query': writeQuery({ key: a.key || 'query', ts: Date.now(), value: eval(a.expr) }); break;
            case 'battle_win': if (typeof BattleManager !== 'undefined' && $gameParty.inBattle()) BattleManager.processVictory(); break;
            case 'battle_lose': if (typeof BattleManager !== 'undefined' && $gameParty.inBattle()) BattleManager.processDefeat(); break;
            case 'recover': recover(); break;
          }
        } catch (e) {}
      });
    }

    function readCmd() {
      try {
        var st = fs.statSync(cmdFile);
        if (st.mtimeMs === lastCmd) return;
        lastCmd = st.mtimeMs;
        handle(JSON.parse(fs.readFileSync(cmdFile, 'utf8')));
      } catch (e) {}
    }

    function applyFreezes() {
      for (var k in freezes) {
        try {
          var f = freezes[k];
          if (f.run) { eval(f.run); } else { apply(f.expr, f.value); }
        } catch (e) {}
      }
    }

    // A generic snapshot that adapts to any RPG Maker MV/MZ game: gold and
    // every party member's standard stats. No game-specific fields.
    function snapshot() {
      var s = { ts: Date.now(), agentHash: AGENT_HASH };
      try { s.rpgmaker = (typeof $gameParty !== 'undefined' && $gameParty !== null); } catch (e) { s.rpgmaker = false; }
      try { s.engine = (typeof Utils !== 'undefined' && Utils.RPGMAKER_NAME) || ''; } catch (e) {}
      try { s.title = (typeof $dataSystem !== 'undefined' && $dataSystem && $dataSystem.gameTitle) || ''; } catch (e) {}
      try { s.gold = s.rpgmaker ? $gameParty.gold() : null; } catch (e) { s.gold = null; }
      try { s.inBattle = s.rpgmaker && $gameParty.inBattle(); } catch (e) { s.inBattle = false; }
      try { s.stopped = (typeof SceneManager !== 'undefined' && SceneManager._stopped === true); } catch (e) { s.stopped = false; }
      try {
        if (s.rpgmaker) {
          // Prefer raw fields (_hp/_mp/_tp) over getters so we don't run the
          // game's custom stat code from our timer; max HP/MP still need the
          // getter, but this snapshot only runs a few times a second.
          s.party = $gameParty.members().map(function (a) {
            return {
              id: a._actorId, name: a._name, level: a._level,
              hp: a._hp, mhp: a.mhp, mp: a._mp, mmp: a.mmp, tp: a._tp
            };
          });
        }
      } catch (e) {}
      s.watch = {};
      window.__cheatuWatch.forEach(function (w) { try { s.watch[w] = eval(w); } catch (e) { s.watch[w] = null; } });
      s.freezes = Object.keys(freezes);
      return s;
    }

    function writeState() {
      try { fs.writeFileSync(stateFile, JSON.stringify(snapshot())); } catch (e) {}
    }

    // Commands/freezes need to be responsive, but the read-only snapshot polls
    // the game's own getters, which in heavily-modified games can be costly or
    // have side effects — so write it less often to stay out of the game's way.
    var __tick = 0;
    setInterval(function () {
      readCmd();
      applyFreezes();
      if ((__tick++ % 3) === 0) writeState();
    }, 100);
    if (window.console) console.log('[cheatu] agent loaded; ipc dir: ' + dir);
  } catch (e) {
    if (window.console) console.error('[cheatu] agent failed: ' + e);
  }
})();
"#;

/// The plugin source as shipped: the header with the checksum's
/// placeholder, then the code.
pub open spec fn template_text() -> Seq<char> {
    AGENT_HEAD@ + HASH_PLACEHOLDER@ + AGENT_HEAD_END@ + AGENT_CODE@
}

/// The UTF-8 bytes of the plugin source as shipped.
pub open spec fn template_bytes() -> Seq<u8> {
    AGENT_HEAD.spec_bytes() + HASH_PLACEHOLDER.spec_bytes() + AGENT_HEAD_END.spec_bytes()
        + AGENT_CODE.spec_bytes()
}

fn template_chars() -> (r: Vec<char>)
    ensures
        r@ == template_text(),
{
    let mut out = chars_of(AGENT_HEAD);
    append_chars(&mut out, chars_of(HASH_PLACEHOLDER).as_slice());
    append_chars(&mut out, chars_of(AGENT_HEAD_END).as_slice());
    append_chars(&mut out, chars_of(AGENT_CODE).as_slice());
    out
}

/// The plugin source as shipped, placeholders and all.
pub fn agent_template() -> (r: String)
    ensures
        r@ == template_text(),
{
    string_of(template_chars().as_slice())
}

/// One FNV-1a step: mix in byte `b`.
pub open spec fn fnv_step(h: u64, b: u8) -> u64 {
    (((h ^ (b as u64)) as nat * 0x100_0000_01b3nat) % 0x1_0000_0000_0000_0000nat) as u64
}

/// FNV-1a steps over `bytes`, starting from the state `h`.
pub open spec fn fnv_fold(h: u64, bytes: Seq<u8>) -> u64
    decreases bytes.len(),
{
    if bytes.len() == 0 {
        h
    } else {
        fnv_step(fnv_fold(h, bytes.drop_last()), bytes.last())
    }
}

/// FNV-1a (64-bit) of `bytes`.
pub open spec fn fnv1a(bytes: Seq<u8>) -> u64 {
    fnv_fold(0xcbf2_9ce4_8422_2325, bytes)
}

proof fn lemma_fnv_fold_concat(h: u64, a: Seq<u8>, b: Seq<u8>)
    ensures
        fnv_fold(h, a + b) == fnv_fold(fnv_fold(h, a), b),
    decreases b.len(),
{
    if b.len() == 0 {
        assert(a + b =~= a);
    } else {
        lemma_fnv_fold_concat(h, a, b.drop_last());
        assert((a + b).drop_last() =~= a + b.drop_last());
        assert((a + b).last() == b.last());
    }
}

/// Continue an FNV-1a hash from `h` over `bytes`.
fn fnv_extend(h: u64, bytes: &[u8]) -> (r: u64)
    ensures
        r == fnv_fold(h, bytes@),
{
    let mut g = h;
    let mut i: usize = 0;
    while i < bytes.len()
        invariant
            i <= bytes@.len(),
            g == fnv_fold(h, bytes@.subrange(0, i as int)),
        decreases bytes@.len() - i,
    {
        proof {
            let s = bytes@.subrange(0, i + 1);
            assert(s.drop_last() =~= bytes@.subrange(0, i as int));
            assert(s.last() == bytes@[i as int]);
        }
        g = g ^ (bytes[i] as u64);
        g = g.wrapping_mul(0x0000_0100_0000_01b3);
        i = i + 1;
    }
    assert(bytes@.subrange(0, bytes@.len() as int) =~= bytes@);
    g
}

/// The agent's identity: FNV-1a over the UTF-8 bytes of the plugin source
/// as shipped, as 16 lower-case hexadecimal digits.
pub open spec fn agent_hash_text() -> Seq<char> {
    zero_pad(render(fnv1a(template_bytes()) as nat, 16, false), 16)
}

/// The agent's identity is a checksum of its source, so any change to the
/// plugin is detected without a manual version bump.
pub fn agent_hash() -> (r: String)
    ensures
        r@ == agent_hash_text(),
{
    let h0: u64 = 0xcbf2_9ce4_8422_2325;
    let h1 = fnv_extend(h0, AGENT_HEAD.as_bytes());
    let h2 = fnv_extend(h1, HASH_PLACEHOLDER.as_bytes());
    let h3 = fnv_extend(h2, AGENT_HEAD_END.as_bytes());
    let h = fnv_extend(h3, AGENT_CODE.as_bytes());
    proof {
        let a = AGENT_HEAD.spec_bytes();
        let b = HASH_PLACEHOLDER.spec_bytes();
        let c = AGENT_HEAD_END.spec_bytes();
        let d = AGENT_CODE.spec_bytes();
        lemma_fnv_fold_concat(h0, a, b);
        lemma_fnv_fold_concat(h0, a + b, c);
        lemma_fnv_fold_concat(h0, a + b + c, d);
    }
    let digits = pad_zeros(render_u64(h, 16, false), 16);
    string_of(digits.as_slice())
}

/// The agent source for the current build, with its checksum in place of
/// every placeholder.
pub open spec fn agent_js_text() -> Seq<char> {
    replaced(template_text(), HASH_PLACEHOLDER@, agent_hash_text())
}

/// The agent source for the current build, with its checksum baked in.
pub fn current_agent_js() -> (r: String)
    ensures
        r@ == agent_js_text(),
{
    let pat = chars_of(HASH_PLACEHOLDER);
    proof {
        reveal_strlit("__CHEATU_HASH__");
    }
    let h = agent_hash();
    let out = replace_all(template_chars().as_slice(), pat.as_slice(), chars_of(h.as_str()).as_slice());
    string_of(out.as_slice())
}

/// Length of the leading run of characters of `s` that are not hex digits.
pub open spec fn non_hex_len(s: Seq<char>) -> nat
    decreases s.len(),
{
    if s.len() == 0 || is_hex(s[0]) {
        0
    } else {
        1 + non_hex_len(s.drop_first())
    }
}

/// Length of the leading run of hex digits of `s`.
pub open spec fn hex_len(s: Seq<char>) -> nat
    decreases s.len(),
{
    if s.len() == 0 || !is_hex(s[0]) {
        0
    } else {
        1 + hex_len(s.drop_first())
    }
}

proof fn lemma_run_len(s: Seq<char>, i: int, hex: bool)
    requires
        0 <= i <= s.len(),
        forall|k: int| 0 <= k < i ==> is_hex(#[trigger] s[k]) == hex,
        i == s.len() || is_hex(s[i]) != hex,
    ensures
        hex ==> hex_len(s) == i,
        !hex ==> non_hex_len(s) == i,
    decreases i,
{
    if i > 0 {
        lemma_run_len(s.drop_first(), i - 1, hex);
    }
}

/// The checksum recorded in an installed plugin's text: the first run of
/// hex digits after the first `cheatu-agent-hash:` marker; none where there
/// is no marker or no hex digit after it.
pub open spec fn plugin_hash(text: Seq<char>) -> Option<Seq<char>> {
    match first_index(text, "cheatu-agent-hash:"@) {
        Some(idx) => {
            let after = text.subrange(idx + 18, text.len() as int);
            let lead = non_hex_len(after);
            let rest = after.subrange(lead as int, after.len() as int);
            let run = hex_len(rest);
            if run == 0 {
                None
            } else {
                Some(rest.subrange(0, run as int))
            }
        },
        None => None,
    }
}

/// The checksum of an installed plugin, from the plugin file's text.
pub fn hash_in_plugin(text: &str) -> (r: Option<String>)
    ensures
        match r {
            Some(h) => plugin_hash(text@) == Some(h@),
            None => plugin_hash(text@) is None,
        },
{
    let cs = chars_of(text);
    let marker = lit("cheatu-agent-hash:");
    proof {
        reveal_strlit("cheatu-agent-hash:");
    }
    let idx = match find_first(cs.as_slice(), marker.as_slice()) {
        Some(i) => i,
        None => {
            return None;
        },
    };
    let n = cs.len();
    let start = idx + 18;
    let mut a = start;
    while a < n && !is_hex_char(cs[a])
        invariant
            start <= a <= n,
            n == cs@.len(),
            forall|k: int| start <= k < a ==> !is_hex(#[trigger] cs@[k]),
        decreases n - a,
    {
        a = a + 1;
    }
    let mut b = a;
    while b < n && is_hex_char(cs[b])
        invariant
            a <= b <= n,
            n == cs@.len(),
            forall|k: int| a <= k < b ==> is_hex(#[trigger] cs@[k]),
        decreases n - b,
    {
        b = b + 1;
    }
    proof {
        let after = cs@.subrange(start as int, n as int);
        assert forall|k: int| 0 <= k < a - start implies is_hex(#[trigger] after[k]) == false by {
            assert(after[k] == cs@[k + start]);
        }
        if a < n {
            assert(after[a - start] == cs@[a as int]);
        }
        lemma_run_len(after, a - start, false);
        let rest = after.subrange(a - start, after.len() as int);
        assert(rest =~= cs@.subrange(a as int, n as int));
        assert forall|k: int| 0 <= k < b - a implies is_hex(#[trigger] rest[k]) == true by {
            assert(rest[k] == cs@[k + a]);
        }
        if b < n {
            assert(rest[b - a] == cs@[b as int]);
        }
        lemma_run_len(rest, b - a, true);
    }
    if b == a {
        None
    } else {
        let h = vstd::slice::slice_subrange(cs.as_slice(), a, b);
        Some(string_of(h))
    }
}


spec fn p16(m: nat) -> nat
    decreases m,
{
    if m == 0 {
        1
    } else {
        16 * p16((m - 1) as nat)
    }
}

/// A decimal digit or a lower-case letter `a` to `f`.
pub open spec fn is_lower_hex(c: char) -> bool {
    ('0' <= c <= '9') || ('a' <= c <= 'f')
}

proof fn lemma_render_hex(v: nat, m: nat)
    requires
        1 <= m,
        v < p16(m),
    ensures
        1 <= render(v, 16, false).len() <= m,
        forall|k: int|
            0 <= k < render(v, 16, false).len() ==> is_lower_hex(#[trigger] render(v, 16, false)[k]),
    decreases v,
{
    let d = crate::numeral::digit_char(v % 16);
    assert(is_lower_hex(d));
    if v >= 16 {
        assert(p16(1) == 16) by {
            reveal_with_fuel(p16, 2);
        }
        let q = p16((m - 1) as nat);
        assert(v / 16 < q) by (nonlinear_arith)
            requires
                v < 16 * q,
        ;
        lemma_render_hex(v / 16, (m - 1) as nat);
        let r = render(v / 16, 16, false);
        assert forall|k: int| 0 <= k < r.push(d).len() implies is_lower_hex(#[trigger] r.push(d)[k]) by {
            if k < r.len() {
                assert(r.push(d)[k] == r[k]);
            }
        }
    }
}

/// The agent's checksum is always sixteen lower-case hexadecimal digits
/// (and, being a function of the shipped source alone, the same on every
/// call).
pub proof fn law_agent_hash_form()
    ensures
        agent_hash_text().len() == 16,
        forall|k: int| 0 <= k < 16 ==> is_lower_hex(#[trigger] agent_hash_text()[k]),
{
    let v = fnv1a(template_bytes()) as nat;
    assert(p16(16) == 0x1_0000_0000_0000_0000) by {
        reveal_with_fuel(p16, 17);
    }
    lemma_render_hex(v, 16);
    let r = render(v, 16, false);
    let z = zero_pad(r, 16);
    if r.len() < 16 {
        let pad = Seq::new((16 - r.len()) as nat, |i: int| '0');
        assert forall|k: int| 0 <= k < 16 implies is_lower_hex(#[trigger] z[k]) by {
            if k < pad.len() {
                assert(z[k] == '0');
            } else {
                assert(z[k] == r[k - pad.len()]);
            }
        }
    }
}

/// A plugin written from the current build reads back the current build's
/// checksum, so a fresh install is never taken for an outdated one.
pub proof fn law_fresh_plugin_is_current()
    ensures
        plugin_hash(agent_js_text()) == Some(agent_hash_text()),
        !update_needed(true, plugin_hash(agent_js_text())),
{
    let hd = AGENT_HEAD@;
    let p = HASH_PLACEHOLDER@;
    let e = AGENT_HEAD_END@;
    let c = AGENT_CODE@;
    let h = agent_hash_text();
    let m = "cheatu-agent-hash:"@;
    reveal_strlit(
        "/*:\n * @plugindesc cheatu agent - file-IPC bridge for external control by cheatu.\n * cheatu-agent-hash: ",
    );
    reveal_strlit("__CHEATU_HASH__");
    reveal_strlit("\n */\n");
    reveal_strlit("cheatu-agent-hash:");
    law_agent_hash_form();
    assert(template_text() =~= hd + (p + (e + c)));
    lemma_replaced_skip(hd, p + (e + c), p, h);
    lemma_replaced_lead(e + c, p, h);
    lemma_replaced_skip(e, c, p, h);
    let rc = replaced(c, p, h);
    let js = agent_js_text();
    assert(js =~= hd + (h + (e + rc)));
    let n = hd.len() as int;
    assert(n == 104);
    assert forall|k: int| 0 <= k < n - 19 implies !occurs_at(hd, m, k) by {
        if occurs_at(hd, m, k) {
            assert(hd.subrange(k, k + 18)[0] == m[0]);
            assert(hd.subrange(k, k + 18)[1] == m[1]);
            assert(hd.subrange(k, k + 18)[6] == m[6]);
        }
    }
    assert forall|k: int| 0 <= k < n - 19 implies !occurs_at(js, m, k) by {
        assert(!occurs_at(hd, m, k));
        assert(js.subrange(k, k + 18) =~= hd.subrange(k, k + 18));
    }
    assert(js.subrange(n - 19, n - 1) =~= m);
    lemma_first_from(js, m, 0, Some(n - 19));
    let after = js.subrange(n - 1, js.len() as int);
    assert(after[0] == ' ');
    assert(after[1] == h[0]);
    lemma_run_len(after, 1, false);
    let rest = after.subrange(1, after.len() as int);
    assert(rest =~= h + (e + rc));
    assert forall|k: int| 0 <= k < 16 implies is_hex(#[trigger] rest[k]) == true by {
        assert(rest[k] == h[k]);
    }
    assert(rest[16] == e[0]);
    lemma_run_len(rest, 16, true);
    assert(rest.subrange(0, 16) =~= h);
}

/// Whether a plugin differs from the current build: it is installed, and
/// the checksum it records is missing or another.
pub open spec fn update_needed(installed: bool, recorded: Option<Seq<char>>) -> bool {
    installed && match recorded {
        Some(h) => h != agent_hash_text(),
        None => true,
    }
}

/// The current agent source holds no checksum placeholder, and its header
/// line reads `cheatu-agent-hash: ` followed by the checksum.
pub proof fn law_agent_js_form()
    ensures
        !contains(agent_js_text(), HASH_PLACEHOLDER@),
        contains(agent_js_text(), "cheatu-agent-hash: "@ + agent_hash_text()),
{
    let hd = AGENT_HEAD@;
    let p = HASH_PLACEHOLDER@;
    let e = AGENT_HEAD_END@;
    let c = AGENT_CODE@;
    let h = agent_hash_text();
    reveal_strlit(
        "/*:\n * @plugindesc cheatu agent - file-IPC bridge for external control by cheatu.\n * cheatu-agent-hash: ",
    );
    reveal_strlit("__CHEATU_HASH__");
    reveal_strlit("\n */\n");
    reveal_strlit("cheatu-agent-hash: ");
    law_agent_hash_form();
    assert forall|i: int| 0 <= i < h.len() implies foreign(#[trigger] h[i], p) by {
        assert(is_lower_hex(h[i]));
    }
    lemma_replaced_clears(template_text(), p, h);
    assert(template_text() =~= hd + (p + (e + c)));
    lemma_replaced_skip(hd, p + (e + c), p, h);
    lemma_replaced_lead(e + c, p, h);
    let js = agent_js_text();
    let n = hd.len() as int;
    assert(n == 104);
    assert(js =~= hd + (h + replaced(e + c, p, h)));
    let line = "cheatu-agent-hash: "@ + h;
    assert(js.subrange(n - 19, n + 16) =~= line);
    assert(occurs_at(js, line, n - 19));
}

/// Whether an installed plugin differs from the current build: it is
/// installed, and its recorded checksum is missing or another.
pub fn needs_update(installed: bool, installed_hash: Option<&str>) -> (r: bool)
    ensures
        r == (installed && match installed_hash {
            Some(h) => h@ != agent_hash_text(),
            None => true,
        }),
        r == update_needed(
            installed,
            match installed_hash {
                Some(h) => Some(h@),
                None => None,
            },
        ),
{
    if !installed {
        return false;
    }
    match installed_hash {
        Some(h) => {
            let cur = agent_hash();
            !text_eq(h, cur.as_str())
        },
        None => true,
    }
}

/// Where the plugin lives, relative to the game's web root.
pub const AGENT_REL: &'static str = "js/plugins/cheatu_agent.js";

/// The `<script>` element that loads the plugin.
pub const SCRIPT_TAG: &'static str = "<script type=\"text/javascript\" src=\"js/plugins/cheatu_agent.js\"></script>";

/// The game's web root: its `www` directory where that holds an
/// `index.html`, else the game directory itself.
pub fn web_root(game_dir: &str, www_has_index: bool) -> (r: String)
    ensures
        r@ == (if www_has_index {
            joined(game_dir@, "www"@)
        } else {
            game_dir@
        }),
{
    if www_has_index {
        proof {
            reveal_strlit("www");
        }
        join_path(game_dir, "www")
    } else {
        game_dir.to_string()
    }
}

/// The folder the agent and the host exchange files through.
pub fn ipc_dir(web_root: &str) -> (r: String)
    ensures
        r@ == joined(web_root@, "cheatu"@),
{
    proof {
        reveal_strlit("cheatu");
    }
    join_path(web_root, "cheatu")
}

/// The plugin file's path.
pub fn plugin_path(web_root: &str) -> (r: String)
    ensures
        r@ == joined(web_root@, AGENT_REL@),
{
    proof {
        reveal_strlit("js/plugins/cheatu_agent.js");
    }
    join_path(web_root, AGENT_REL)
}

/// What installing the plugin does to the game's `index.html`.
#[derive(Debug)]
pub enum Injection {
    /// A `<script>` for the plugin is already there.
    Present,
    /// The page with the plugin's `<script>` inserted.
    Insert(String),
}

/// The plugin's `<script>` element inserted into `html`: a page that already
/// mentions `cheatu_agent.js` is left as it is; otherwise the element and a
/// line break go right before the `<script` that opens the element whose
/// `src="js/main.js"` comes first in the page.
pub open spec fn injected(html: Seq<char>) -> Result<Option<Seq<char>>, Seq<char>> {
    if contains(html, "cheatu_agent.js"@) {
        Ok(None)
    } else {
        match first_index(html, "src=\"js/main.js\""@) {
            None => Err("could not find js/main.js in index.html"@),
            Some(anchor) => match last_index(html.subrange(0, anchor), "<script"@) {
                None => Err("malformed index.html"@),
                Some(p) => Ok(
                    Some(
                        html.subrange(0, p) + SCRIPT_TAG@ + "\n    "@ + html.subrange(
                            p,
                            html.len() as int,
                        ),
                    ),
                ),
            },
        }
    }
}

/// Decide how to inject the plugin into the game's `index.html`.
pub fn inject_script_tag(html: &str) -> (r: Result<Injection, String>)
    ensures
        match r {
            Ok(Injection::Present) => injected(html@) == Ok::<Option<Seq<char>>, Seq<char>>(None),
            Ok(Injection::Insert(s)) => injected(html@) == Ok::<Option<Seq<char>>, Seq<char>>(
                Some(s@),
            ),
            Err(e) => injected(html@) == Err::<Option<Seq<char>>, Seq<char>>(e@),
        },
{
    let cs = chars_of(html);
    let mine = lit("cheatu_agent.js");
    if find_first(cs.as_slice(), mine.as_slice()).is_some() {
        return Ok(Injection::Present);
    }
    let anchor_pat = lit("src=\"js/main.js\"");
    let anchor = match find_first(cs.as_slice(), anchor_pat.as_slice()) {
        Some(a) => a,
        None => {
            return Err("could not find js/main.js in index.html".to_string());
        },
    };
    let head = vstd::slice::slice_subrange(cs.as_slice(), 0, anchor);
    let open = lit("<script");
    let p = match find_last(head, open.as_slice()) {
        Some(p) => p,
        None => {
            return Err("malformed index.html".to_string());
        },
    };
    proof {
        assert(head@ =~= cs@.subrange(0, anchor as int));
        crate::text::lemma_last_index_bound(head@, open@);
    }
    let mut out: Vec<char> = Vec::new();
    let mut k: usize = 0;
    while k < p
        invariant
            k <= p,
            p <= anchor <= cs@.len(),
            out@ == cs@.subrange(0, k as int),
        decreases p - k,
    {
        out.push(cs[k]);
        k = k + 1;
        assert(out@ =~= cs@.subrange(0, k as int));
    }
    push_str(&mut out, SCRIPT_TAG);
    push_str(&mut out, "\n    ");
    let ghost mid = out@;
    let n = cs.len();
    while k < n
        invariant
            p <= k <= n,
            n == cs@.len(),
            out@ == mid + cs@.subrange(p as int, k as int),
        decreases n - k,
    {
        out.push(cs[k]);
        k = k + 1;
        assert(out@ =~= mid + cs@.subrange(p as int, k as int));
    }
    Ok(Injection::Insert(string_of(out.as_slice())))
}


/// Which database an item belongs to.
#[derive(Copy, Clone, Debug, PartialEq, Eq, Structural)]
pub enum ItemKind {
    Item,
    Weapon,
    Armor,
}

pub open spec fn data_array_name(kind: ItemKind) -> Seq<char> {
    match kind {
        ItemKind::Item => "$dataItems"@,
        ItemKind::Weapon => "$dataWeapons"@,
        ItemKind::Armor => "$dataArmors"@,
    }
}

impl ItemKind {
    /// The game's JavaScript array that holds this database.
    pub fn data_array(self) -> (r: &'static str)
        ensures
            r@ == data_array_name(self),
    {
        match self {
            ItemKind::Item => "$dataItems",
            ItemKind::Weapon => "$dataWeapons",
            ItemKind::Armor => "$dataArmors",
        }
    }
}

/// One action for the running agent, as it goes into `cmd.json`'s
/// `actions` list (its `type` is the variant).
#[derive(Debug)]
pub enum Action {
    /// `type: "set"`: assign a JSON value to a JavaScript lvalue once.
    Assign { expr: String, value: Json },
    /// `type: "eval"`: run JavaScript once.
    Eval { expr: String },
    /// `type: "freeze"` with `expr`/`value`: re-assign the value every tick.
    Freeze { key: String, expr: String, value: Json },
    /// `type: "freeze"` with `run`: run a statement every tick.
    FreezeRun { key: String, run: String },
    /// `type: "unfreeze"`.
    Unfreeze { key: String },
    /// `type: "watch"`: report these expressions in the state file.
    Watch { exprs: Vec<String> },
    /// `type: "catalog"`: rebuild the database catalog into `query.json`.
    Catalog,
    /// `type: "battle_win"`.
    BattleWin,
    /// `type: "battle_lose"`.
    BattleLose,
    /// `type: "recover"`: resume the game after a crash froze it.
    Recover,
}

/// The JavaScript that gives (or, with a negative count, takes) `count` of
/// database entry `id`.
pub open spec fn gain_item_js(kind: ItemKind, id: i64, count: i64) -> Seq<char> {
    "$gameParty.gainItem("@ + data_array_name(kind) + "["@ + render_int(id as int) + "], "@
        + render_int(count as int) + ")"@
}

/// Give (or take, with a negative count) an item/weapon/armor by database id.
pub fn gain_item(kind: ItemKind, id: i64, count: i64) -> (r: Action)
    ensures
        r matches Action::Eval { expr } && expr@ == gain_item_js(kind, id, count),
{
    let mut out: Vec<char> = Vec::new();
    push_str(&mut out, "$gameParty.gainItem(");
    push_str(&mut out, kind.data_array());
    push_str(&mut out, "[");
    let a = render_i64(id);
    crate::text::append_chars(&mut out, a.as_slice());
    push_str(&mut out, "], ");
    let b = render_i64(count);
    crate::text::append_chars(&mut out, b.as_slice());
    push_str(&mut out, ")");
    Action::Eval { expr: string_of(out.as_slice()) }
}

/// The JavaScript that sets game variable `id` to the value whose JSON text
/// is `value_json`.
pub open spec fn set_variable_js(id: i64, value_json: Seq<char>) -> Seq<char> {
    "$gameVariables.setValue("@ + render_int(id as int) + ", "@ + value_json + ")"@
}

/// Set a game variable; `value_json` is the value's JSON text.
pub fn set_variable(id: i64, value_json: &str) -> (r: Action)
    ensures
        r matches Action::Eval { expr } && expr@ == set_variable_js(id, value_json@),
{
    let mut out: Vec<char> = Vec::new();
    push_str(&mut out, "$gameVariables.setValue(");
    let a = render_i64(id);
    crate::text::append_chars(&mut out, a.as_slice());
    push_str(&mut out, ", ");
    push_str(&mut out, value_json);
    push_str(&mut out, ")");
    Action::Eval { expr: string_of(out.as_slice()) }
}

pub open spec fn bool_text(b: bool) -> Seq<char> {
    if b {
        "true"@
    } else {
        "false"@
    }
}

/// The JavaScript that turns game switch `id` on or off.
pub open spec fn set_switch_js(id: i64, on: bool) -> Seq<char> {
    "$gameSwitches.setValue("@ + render_int(id as int) + ", "@ + bool_text(on) + ")"@
}

/// Set a game switch on/off.
pub fn set_switch(id: i64, on: bool) -> (r: Action)
    ensures
        r matches Action::Eval { expr } && expr@ == set_switch_js(id, on),
{
    let mut out: Vec<char> = Vec::new();
    push_str(&mut out, "$gameSwitches.setValue(");
    let a = render_i64(id);
    crate::text::append_chars(&mut out, a.as_slice());
    push_str(&mut out, ", ");
    if on {
        push_str(&mut out, "true");
    } else {
        push_str(&mut out, "false");
    }
    push_str(&mut out, ")");
    Action::Eval { expr: string_of(out.as_slice()) }
}

/// The key of a "keep stat at max" freeze.
pub open spec fn max_key(stat: Seq<char>, all: bool) -> Seq<char> {
    "max_"@ + stat + (if all {
        "_all"@
    } else {
        ""@
    })
}

/// Stable key used for a "keep stat at max" freeze.
pub fn max_stat_key(stat: &str, all: bool) -> (r: String)
    ensures
        r@ == max_key(stat@, all),
{
    let mut out: Vec<char> = Vec::new();
    push_str(&mut out, "max_");
    push_str(&mut out, stat);
    if all {
        push_str(&mut out, "_all");
    } else {
        push_str(&mut out, "");
    }
    string_of(out.as_slice())
}

/// What `{:?}` writes for a string: the text in double quotes, with
/// `char::escape_debug` escapes.
pub uninterp spec fn debug_text(s: Seq<char>) -> Seq<char>;

/// `format!("{:?}", s)` for a string. Stated: the result is the named
/// rendering of `s`.
#[verifier::external_body]
fn debug_quoted(s: &str) -> (r: String)
    ensures
        r@ == debug_text(s@),
{
    format!("{:?}", s)
}

/// The statement that sets a stat to its maximum for actor `a`.
pub open spec fn stat_assign(stat: Seq<char>) -> Option<Seq<char>> {
    if stat == "hp"@ {
        Some("a._hp=a.mhp;"@)
    } else if stat == "mp"@ {
        Some("a._mp=a.mmp;"@)
    } else if stat == "tp"@ {
        Some("a._tp=a.maxTp();"@)
    } else {
        None
    }
}

/// The statement run every tick to keep a stat at its maximum, for the whole
/// party or for its leader.
pub open spec fn stat_max_run(assign: Seq<char>, all: bool) -> Seq<char> {
    if all {
        "$gameParty.members().forEach(function(a){"@ + assign + "});"@
    } else {
        "(function(){var a=$gameParty.leader();"@ + assign + "})();"@
    }
}

/// Freeze an actor stat (`hp`/`mp`/`tp`) at its maximum, re-derived each
/// tick so it survives level-ups: the freeze to send, whose key is
/// [`max_stat_key`]. Any other stat is refused.
pub fn freeze_stat_max(stat: &str, all: bool) -> (r: Result<Action, String>)
    ensures
        match stat_assign(stat@) {
            Some(assign) => r matches Ok(Action::FreezeRun { key, run }) && key@ == max_key(
                stat@,
                all,
            ) && run@ == stat_max_run(assign, all),
            None => r matches Err(e) && e@ == "unknown stat "@ + debug_text(stat@),
        },
{
    let assign: &str = if text_eq(stat, "hp") {
        "a._hp=a.mhp;"
    } else if text_eq(stat, "mp") {
        "a._mp=a.mmp;"
    } else if text_eq(stat, "tp") {
        "a._tp=a.maxTp();"
    } else {
        let mut out: Vec<char> = Vec::new();
        push_str(&mut out, "unknown stat ");
        let q = debug_quoted(stat);
        push_str(&mut out, q.as_str());
        return Err(string_of(out.as_slice()));
    };
    let mut run: Vec<char> = Vec::new();
    if all {
        push_str(&mut run, "$gameParty.members().forEach(function(a){");
        push_str(&mut run, assign);
        push_str(&mut run, "});");
    } else {
        push_str(&mut run, "(function(){var a=$gameParty.leader();");
        push_str(&mut run, assign);
        push_str(&mut run, "})();");
    }
    Ok(Action::FreezeRun { key: max_stat_key(stat, all), run: string_of(run.as_slice()) })
}


/// One party member from the agent's snapshot.
#[derive(Clone, Debug)]
pub struct Member {
    pub id: i64,
    pub name: String,
    pub level: i64,
    pub hp: i64,
    pub mhp: i64,
    pub mp: i64,
    pub mmp: i64,
    pub tp: i64,
}

pub struct MemberV {
    pub id: i64,
    pub name: Seq<char>,
    pub level: i64,
    pub hp: i64,
    pub mhp: i64,
    pub mp: i64,
    pub mmp: i64,
    pub tp: i64,
}

impl View for Member {
    type V = MemberV;

    open spec fn view(&self) -> MemberV {
        MemberV {
            id: self.id,
            name: self.name@,
            level: self.level,
            hp: self.hp,
            mhp: self.mhp,
            mp: self.mp,
            mmp: self.mmp,
            tp: self.tp,
        }
    }
}

/// A party member as the agent reports it: a missing or non-integer number
/// reads as 0, a missing name as `"?"`.
pub open spec fn member_of(m: JsonV) -> MemberV {
    MemberV {
        id: int_or_zero(get(m, "id"@)),
        name: text_or(as_text(get(m, "name"@)), "?"@),
        level: int_or_zero(get(m, "level"@)),
        hp: int_or_zero(get(m, "hp"@)),
        mhp: int_or_zero(get(m, "mhp"@)),
        mp: int_or_zero(get(m, "mp"@)),
        mmp: int_or_zero(get(m, "mmp"@)),
        tp: int_or_zero(get(m, "tp"@)),
    }
}

fn int_or_0(v: Option<&Json>) -> (r: i64)
    ensures
        r == int_or_zero(opt_view(v)),
{
    match int_of(v) {
        Some(i) => i,
        None => 0,
    }
}

fn member_from(m: &Json) -> (r: Member)
    ensures
        r@ == member_of(m@),
{
    Member {
        id: int_or_0(m.get("id")),
        name: text_or_default(m.get("name"), "?"),
        level: int_or_0(m.get("level")),
        hp: int_or_0(m.get("hp")),
        mhp: int_or_0(m.get("mhp")),
        mp: int_or_0(m.get("mp")),
        mmp: int_or_0(m.get("mmp")),
        tp: int_or_0(m.get("tp")),
    }
}

/// A parsed, typed view of the agent's reported state.
#[derive(Clone, Debug)]
pub struct Snapshot {
    pub ts: u64,
    pub rpgmaker: bool,
    pub engine: String,
    pub title: String,
    pub gold: Option<i64>,
    pub party: Vec<Member>,
    pub freezes: Vec<String>,
    /// Whether a battle is currently active (win/lose apply only then).
    pub in_battle: bool,
    /// Whether the game's update loop is stopped: usually an unhandled
    /// exception, i.e. a candidate for "recover".
    pub stopped: bool,
    /// The last exception message the agent captured, if any.
    pub error: Option<String>,
    /// Checksum of the agent actually running in the game (may differ from
    /// the plugin on disk until the game is restarted).
    pub agent_hash: Option<String>,
}

pub struct SnapshotV {
    pub ts: u64,
    pub rpgmaker: bool,
    pub engine: Seq<char>,
    pub title: Seq<char>,
    pub gold: Option<i64>,
    pub party: Seq<MemberV>,
    pub freezes: Seq<Seq<char>>,
    pub in_battle: bool,
    pub stopped: bool,
    pub error: Option<Seq<char>>,
    pub agent_hash: Option<Seq<char>>,
}

pub open spec fn opt_text(s: Option<String>) -> Option<Seq<char>> {
    match s {
        Some(x) => Some(x@),
        None => None,
    }
}

impl View for Snapshot {
    type V = SnapshotV;

    open spec fn view(&self) -> SnapshotV {
        SnapshotV {
            ts: self.ts,
            rpgmaker: self.rpgmaker,
            engine: self.engine@,
            title: self.title@,
            gold: self.gold,
            party: self.party@.map_values(|m: Member| m@),
            freezes: self.freezes@.map_values(|s: String| s@),
            in_battle: self.in_battle,
            stopped: self.stopped,
            error: opt_text(self.error),
            agent_hash: opt_text(self.agent_hash),
        }
    }
}

/// The strings among `a`, in order.
pub open spec fn texts_in(a: Seq<JsonV>) -> Seq<Seq<char>>
    decreases a.len(),
{
    if a.len() == 0 {
        seq![]
    } else {
        let rest = texts_in(a.drop_last());
        match a.last() {
            JsonV::Str(s) => rest.push(s),
            _ => rest,
        }
    }
}

/// The agent's state file read into typed fields: missing or mistyped
/// fields read as 0, `false`, empty, or none.
pub open spec fn snapshot_of(v: JsonV) -> SnapshotV {
    SnapshotV {
        ts: match as_uint(get(v, "ts"@)) {
            Some(t) => t,
            None => 0,
        },
        rpgmaker: flag_or_false(get(v, "rpgmaker"@)),
        engine: text_or(as_text(get(v, "engine"@)), ""@),
        title: text_or(as_text(get(v, "title"@)), ""@),
        gold: as_int(get(v, "gold"@)),
        party: match as_items(get(v, "party"@)) {
            Some(a) => a.map_values(|m: JsonV| member_of(m)),
            None => seq![],
        },
        freezes: match as_items(get(v, "freezes"@)) {
            Some(a) => texts_in(a),
            None => seq![],
        },
        in_battle: flag_or_false(get(v, "inBattle"@)),
        stopped: flag_or_false(get(v, "stopped"@)),
        error: as_text(get(v, "error"@)),
        agent_hash: as_text(get(v, "agentHash"@)),
    }
}

fn flag_or_no(v: Option<&Json>) -> (r: bool)
    ensures
        r == flag_or_false(opt_view(v)),
{
    match flag_of(v) {
        Some(b) => b,
        None => false,
    }
}

fn party_from(v: Option<&Json>) -> (r: Vec<Member>)
    ensures
        r@.map_values(|m: Member| m@) == match as_items(opt_view(v)) {
            Some(a) => a.map_values(|m: JsonV| member_of(m)),
            None => seq![],
        },
{
    let mut out: Vec<Member> = Vec::new();
    match items_of(v) {
        Some(arr) => {
            proof {
                lemma_items_view(arr@);
            }
            let ghost items = items_view(arr@);
            let mut i: usize = 0;
            while i < arr.len()
                invariant
                    i <= arr@.len(),
                    items == items_view(arr@),
                    items.len() == arr@.len(),
                    forall|j: int| 0 <= j < arr@.len() ==> #[trigger] items[j] == arr@[j]@,
                    out@.len() == i,
                    forall|j: int| 0 <= j < i ==> #[trigger] out@[j]@ == member_of(items[j]),
                decreases arr@.len() - i,
            {
                out.push(member_from(&arr[i]));
                i = i + 1;
            }
            assert(out@.map_values(|m: Member| m@) =~= items.map_values(|m: JsonV| member_of(m)));
        },
        None => {
            assert(out@.map_values(|m: Member| m@) =~= Seq::<MemberV>::empty());
        },
    }
    out
}

fn texts_from(v: Option<&Json>) -> (r: Vec<String>)
    ensures
        r@.map_values(|s: String| s@) == match as_items(opt_view(v)) {
            Some(a) => texts_in(a),
            None => seq![],
        },
{
    let mut out: Vec<String> = Vec::new();
    match items_of(v) {
        Some(arr) => {
            proof {
                lemma_items_view(arr@);
            }
            let ghost items = items_view(arr@);
            let mut i: usize = 0;
            while i < arr.len()
                invariant
                    i <= arr@.len(),
                    items == items_view(arr@),
                    items.len() == arr@.len(),
                    forall|j: int| 0 <= j < arr@.len() ==> #[trigger] items[j] == arr@[j]@,
                    out@.map_values(|s: String| s@) == texts_in(items.subrange(0, i as int)),
                decreases arr@.len() - i,
            {
                let ghost before = out@.map_values(|s: String| s@);
                proof {
                    let s = items.subrange(0, i + 1);
                    assert(s.drop_last() =~= items.subrange(0, i as int));
                    assert(s.last() == arr@[i as int]@);
                }
                match arr[i].as_str() {
                    Some(s) => {
                        out.push(s.to_string());
                        assert(out@.map_values(|s: String| s@) =~= before.push(s@));
                    },
                    None => {},
                }
                i = i + 1;
            }
            assert(items.subrange(0, arr@.len() as int) =~= items);
        },
        None => {
            assert(out@.map_values(|s: String| s@) =~= Seq::<Seq<char>>::empty());
        },
    }
    out
}

/// Read the agent's state (the parsed `state.json`) into typed fields.
pub fn snapshot(v: &Json) -> (r: Snapshot)
    ensures
        r@ == snapshot_of(v@),
{
    Snapshot {
        ts: match uint_of(v.get("ts")) {
            Some(t) => t,
            None => 0,
        },
        rpgmaker: flag_or_no(v.get("rpgmaker")),
        engine: text_or_default(v.get("engine"), ""),
        title: text_or_default(v.get("title"), ""),
        gold: int_of(v.get("gold")),
        party: party_from(v.get("party")),
        freezes: texts_from(v.get("freezes")),
        in_battle: flag_or_no(v.get("inBattle")),
        stopped: flag_or_no(v.get("stopped")),
        error: owned_text(v.get("error")),
        agent_hash: owned_text(v.get("agentHash")),
    }
}


/// A database entry (item / weapon / armor) with the amount currently owned.
#[derive(Clone, Debug)]
pub struct DbEntry {
    pub id: i64,
    pub name: String,
    pub count: i64,
}

pub struct DbEntryV {
    pub id: i64,
    pub name: Seq<char>,
    pub count: i64,
}

impl View for DbEntry {
    type V = DbEntryV;

    open spec fn view(&self) -> DbEntryV {
        DbEntryV { id: self.id, name: self.name@, count: self.count }
    }
}

/// A named variable or switch with its current value.
#[derive(Debug)]
pub struct NamedEntry {
    pub id: i64,
    pub name: String,
    pub value: Json,
}

pub struct NamedEntryV {
    pub id: i64,
    pub name: Seq<char>,
    pub value: JsonV,
}

impl View for NamedEntry {
    type V = NamedEntryV;

    open spec fn view(&self) -> NamedEntryV {
        NamedEntryV { id: self.id, name: self.name@, value: self.value@ }
    }
}

/// The discoverable, modifiable database of an RPG Maker game.
#[derive(Debug)]
pub struct Catalog {
    pub items: Vec<DbEntry>,
    pub weapons: Vec<DbEntry>,
    pub armors: Vec<DbEntry>,
    pub variables: Vec<NamedEntry>,
    pub switches: Vec<NamedEntry>,
}

pub struct CatalogV {
    pub items: Seq<DbEntryV>,
    pub weapons: Seq<DbEntryV>,
    pub armors: Seq<DbEntryV>,
    pub variables: Seq<NamedEntryV>,
    pub switches: Seq<NamedEntryV>,
}

impl View for Catalog {
    type V = CatalogV;

    open spec fn view(&self) -> CatalogV {
        CatalogV {
            items: self.items@.map_values(|e: DbEntry| e@),
            weapons: self.weapons@.map_values(|e: DbEntry| e@),
            armors: self.armors@.map_values(|e: DbEntry| e@),
            variables: self.variables@.map_values(|e: NamedEntry| e@),
            switches: self.switches@.map_values(|e: NamedEntry| e@),
        }
    }
}

pub open spec fn db_entry_of(e: JsonV) -> DbEntryV {
    DbEntryV {
        id: int_or_zero(get(e, "id"@)),
        name: text_or(as_text(get(e, "name"@)), ""@),
        count: int_or_zero(get(e, "count"@)),
    }
}

pub open spec fn named_entry_of(e: JsonV) -> NamedEntryV {
    NamedEntryV {
        id: int_or_zero(get(e, "id"@)),
        name: text_or(as_text(get(e, "name"@)), ""@),
        value: match get(e, "value"@) {
            Some(x) => x,
            None => JsonV::Null,
        },
    }
}

/// The entries of database `key` of a catalog value (none where missing).
pub open spec fn db_of(val: JsonV, key: Seq<char>) -> Seq<DbEntryV> {
    match as_items(get(val, key)) {
        Some(a) => a.map_values(|e: JsonV| db_entry_of(e)),
        None => seq![],
    }
}

/// The named variables or switches `key` of a catalog value.
pub open spec fn named_of(val: JsonV, key: Seq<char>) -> Seq<NamedEntryV> {
    match as_items(get(val, key)) {
        Some(a) => a.map_values(|e: JsonV| named_entry_of(e)),
        None => seq![],
    }
}

/// Whether the agent's query file holds a catalog.
pub open spec fn is_catalog(v: JsonV) -> bool {
    as_text(get(v, "key"@)) == Some("catalog"@)
}

/// The catalog in the agent's query file: present when the file's `key` is
/// `"catalog"` and it has a `value`.
pub open spec fn catalog_of(v: JsonV) -> Option<CatalogV> {
    if !is_catalog(v) {
        None
    } else {
        match get(v, "value"@) {
            None => None,
            Some(val) => Some(
                CatalogV {
                    items: db_of(val, "items"@),
                    weapons: db_of(val, "weapons"@),
                    armors: db_of(val, "armors"@),
                    variables: named_of(val, "variables"@),
                    switches: named_of(val, "switches"@),
                },
            ),
        }
    }
}

fn holds_catalog(v: &Json) -> (r: bool)
    ensures
        r == is_catalog(v@),
{
    proof {
        reveal_strlit("catalog");
    }
    match text_of(v.get("key")) {
        Some(k) => text_eq(k, "catalog"),
        None => false,
    }
}

fn db_from(val: &Json, key: &str) -> (r: Vec<DbEntry>)
    ensures
        r@.map_values(|e: DbEntry| e@) == db_of(val@, key@),
{
    let mut out: Vec<DbEntry> = Vec::new();
    match items_of(val.get(key)) {
        Some(arr) => {
            proof {
                lemma_items_view(arr@);
            }
            let ghost items = items_view(arr@);
            let mut i: usize = 0;
            while i < arr.len()
                invariant
                    i <= arr@.len(),
                    items == items_view(arr@),
                    items.len() == arr@.len(),
                    forall|j: int| 0 <= j < arr@.len() ==> #[trigger] items[j] == arr@[j]@,
                    out@.len() == i,
                    forall|j: int| 0 <= j < i ==> #[trigger] out@[j]@ == db_entry_of(items[j]),
                decreases arr@.len() - i,
            {
                let e = &arr[i];
                out.push(
                    DbEntry {
                        id: int_or_0(e.get("id")),
                        name: text_or_default(e.get("name"), ""),
                        count: int_or_0(e.get("count")),
                    },
                );
                i = i + 1;
            }
            assert(out@.map_values(|e: DbEntry| e@) =~= items.map_values(
                |e: JsonV| db_entry_of(e),
            ));
        },
        None => {
            assert(out@.map_values(|e: DbEntry| e@) =~= Seq::<DbEntryV>::empty());
        },
    }
    out
}

fn named_from(val: &Json, key: &str) -> (r: Vec<NamedEntry>)
    ensures
        r@.map_values(|e: NamedEntry| e@) == named_of(val@, key@),
{
    let mut out: Vec<NamedEntry> = Vec::new();
    match items_of(val.get(key)) {
        Some(arr) => {
            proof {
                lemma_items_view(arr@);
            }
            let ghost items = items_view(arr@);
            let mut i: usize = 0;
            while i < arr.len()
                invariant
                    i <= arr@.len(),
                    items == items_view(arr@),
                    items.len() == arr@.len(),
                    forall|j: int| 0 <= j < arr@.len() ==> #[trigger] items[j] == arr@[j]@,
                    out@.len() == i,
                    forall|j: int| 0 <= j < i ==> #[trigger] out@[j]@ == named_entry_of(items[j]),
                decreases arr@.len() - i,
            {
                let e = &arr[i];
                let value = match e.get("value") {
                    Some(x) => copy_json(x),
                    None => Json::Null,
                };
                out.push(
                    NamedEntry {
                        id: int_or_0(e.get("id")),
                        name: text_or_default(e.get("name"), ""),
                        value,
                    },
                );
                i = i + 1;
            }
            assert(out@.map_values(|e: NamedEntry| e@) =~= items.map_values(
                |e: JsonV| named_entry_of(e),
            ));
        },
        None => {
            assert(out@.map_values(|e: NamedEntry| e@) =~= Seq::<NamedEntryV>::empty());
        },
    }
    out
}

pub open spec fn opt_catalog(c: Option<Catalog>) -> Option<CatalogV> {
    match c {
        Some(x) => Some(x@),
        None => None,
    }
}

/// The catalog the agent last wrote (the parsed `query.json`), if it is one.
pub fn read_catalog(v: &Json) -> (r: Option<Catalog>)
    ensures
        opt_catalog(r) == catalog_of(v@),
{
    if !holds_catalog(v) {
        return None;
    }
    let val = match v.get("value") {
        Some(x) => x,
        None => {
            return None;
        },
    };
    Some(
        Catalog {
            items: db_from(val, "items"),
            weapons: db_from(val, "weapons"),
            armors: db_from(val, "armors"),
            variables: named_from(val, "variables"),
            switches: named_from(val, "switches"),
        },
    )
}

/// Timestamp (agent `Date.now()` milliseconds) of the catalog the agent last
/// wrote, so a caller can tell a freshly rebuilt catalog from a stale one.
pub fn catalog_ts(v: &Json) -> (r: Option<u64>)
    ensures
        r == (if is_catalog(v@) {
            as_uint(get(v@, "ts"@))
        } else {
            None
        }),
{
    if !holds_catalog(v) {
        return None;
    }
    uint_of(v.get("ts"))
}


/// The database a kind word names: `item`, `weapon` or `armor`.
pub open spec fn kind_named(word: Seq<char>) -> Option<ItemKind> {
    if word == "item"@ {
        Some(ItemKind::Item)
    } else if word == "weapon"@ {
        Some(ItemKind::Weapon)
    } else if word == "armor"@ {
        Some(ItemKind::Armor)
    } else {
        None
    }
}

pub fn item_kind_named(word: &str) -> (r: Option<ItemKind>)
    ensures
        r == kind_named(word@),
{
    if text_eq(word, "item") {
        Some(ItemKind::Item)
    } else if text_eq(word, "weapon") {
        Some(ItemKind::Weapon)
    } else if text_eq(word, "armor") {
        Some(ItemKind::Armor)
    } else {
        None
    }
}

/// Whether a switch state word turns a switch on: `on`, `true` or `1`.
pub fn switch_word_on(word: &str) -> (r: bool)
    ensures
        r == (word@ == "on"@ || word@ == "true"@ || word@ == "1"@),
{
    text_eq(word, "on") || text_eq(word, "true") || text_eq(word, "1")
}

/// Installing is idempotent: a page with the plugin's `<script>` inserted
/// is left as it is by the next install.
pub proof fn law_injection_idempotent(html: Seq<char>)
    ensures
        match injected(html) {
            Ok(Some(h)) => injected(h) == Ok::<Option<Seq<char>>, Seq<char>>(None),
            _ => true,
        },
{
    reveal_strlit("<script type=\"text/javascript\" src=\"js/plugins/cheatu_agent.js\"></script>");
    reveal_strlit("cheatu_agent.js");
    match injected(html) {
        Ok(Some(h)) => {
            let anchor = first_index(html, "src=\"js/main.js\""@).unwrap();
            crate::text::lemma_first_from_occurs(html, "src=\"js/main.js\""@, 0);
            let head = html.subrange(0, anchor);
            let p = last_index(head, "<script"@).unwrap();
            crate::text::lemma_last_index_bound(head, "<script"@);
            let k = p + 47;
            assert(h.subrange(k, k + 15) =~= "cheatu_agent.js"@);
            assert(crate::text::occurs_at(h, "cheatu_agent.js"@, k));
        },
        _ => {},
    }
}

/// The agent's reported state, from the text of `state.json`: the parsed
/// value, or the parse error after "parse state.json: ".
pub fn state_text(text: &str) -> (r: Result<Json, String>)
    ensures
        match json_parse(text@) {
            Ok(v) => r matches Ok(j) && j@ == v,
            Err(e) => r matches Err(m) && m@ == "parse state.json: "@ + e,
        },
{
    match parse_json(text) {
        Ok(v) => Ok(v),
        Err(e) => Err(prefixed("parse state.json: ", e.as_str())),
    }
}

/// The typed state, from the text of `state.json`.
pub fn snapshot_text(text: &str) -> (r: Result<Snapshot, String>)
    ensures
        match json_parse(text@) {
            Ok(v) => r matches Ok(s) && s@ == snapshot_of(v),
            Err(e) => r matches Err(m) && m@ == "parse state.json: "@ + e,
        },
{
    match state_text(text) {
        Ok(v) => Ok(snapshot(&v)),
        Err(m) => Err(m),
    }
}

/// The catalog in the text of `query.json`, if it parses and holds one.
pub fn catalog_text(text: &str) -> (r: Option<Catalog>)
    ensures
        opt_catalog(r) == match json_parse(text@) {
            Ok(v) => catalog_of(v),
            Err(_) => None,
        },
{
    match parse_json(text) {
        Ok(v) => read_catalog(&v),
        Err(_) => None,
    }
}

/// The stamp of the catalog in the text of `query.json`, if it parses and
/// holds one.
pub fn catalog_ts_text(text: &str) -> (r: Option<u64>)
    ensures
        r == match json_parse(text@) {
            Ok(v) => if is_catalog(v) {
                as_uint(get(v, "ts"@))
            } else {
                None
            },
            Err(_) => None,
        },
{
    match parse_json(text) {
        Ok(v) => catalog_ts(&v),
        Err(_) => None,
    }
}

/// A JSON object whose first member is `"type"` with value `t`.
pub open spec fn tagged(t: Seq<char>, rest: Seq<(Seq<char>, JsonV)>) -> JsonV {
    JsonV::Object(seq![("type"@, JsonV::Str(t))] + rest)
}

/// JSON strings for each of `ss`.
pub open spec fn strs_v(ss: Seq<String>) -> Seq<JsonV> {
    ss.map_values(|x: String| JsonV::Str(x@))
}

/// An action as the agent reads it from `cmd.json`.
pub open spec fn action_v(a: Action) -> JsonV {
    match a {
        Action::Assign { expr, value } => tagged(
            "set"@,
            seq![("expr"@, JsonV::Str(expr@)), ("value"@, value@)],
        ),
        Action::Eval { expr } => tagged("eval"@, seq![("expr"@, JsonV::Str(expr@))]),
        Action::Freeze { key, expr, value } => tagged(
            "freeze"@,
            seq![("key"@, JsonV::Str(key@)), ("expr"@, JsonV::Str(expr@)), ("value"@, value@)],
        ),
        Action::FreezeRun { key, run } => tagged(
            "freeze"@,
            seq![("key"@, JsonV::Str(key@)), ("run"@, JsonV::Str(run@))],
        ),
        Action::Unfreeze { key } => tagged("unfreeze"@, seq![("key"@, JsonV::Str(key@))]),
        Action::Watch { exprs } => tagged("watch"@, seq![("exprs"@, JsonV::Array(strs_v(exprs@)))]),
        Action::Catalog => tagged("catalog"@, seq![]),
        Action::BattleWin => tagged("battle_win"@, seq![]),
        Action::BattleLose => tagged("battle_lose"@, seq![]),
        Action::Recover => tagged("recover"@, seq![]),
    }
}

pub(crate) fn text_json(s: &str) -> (r: Json)
    ensures
        r@ == JsonV::Str(s@),
{
    Json::Str(string_of(chars_of(s).as_slice()))
}

pub(crate) fn object_of(ms: Vec<(String, Json)>) -> (r: Json)
    ensures
        r@ == JsonV::Object(members_view(ms@)),
{
    Json::Object(ms)
}

/// An object with member `"type"` set to `t`, then `rest`.
fn tagged_json(t: &str, rest: Vec<(String, Json)>) -> (r: Json)
    ensures
        r@ == tagged(t@, members_view(rest@)),
{
    let mut ms: Vec<(String, Json)> = Vec::new();
    ms.push((string_of(chars_of("type").as_slice()), text_json(t)));
    let mut rest = rest;
    let ghost rv = members_view(rest@);
    proof {
        lemma_members_view(rest@);
    }
    let ghost r0 = rest@;
    ms.append(&mut rest);
    proof {
        lemma_members_view(ms@);
        assert(ms@ =~= seq![ms@[0]] + r0);
        assert(members_view(ms@) =~= seq![("type"@, JsonV::Str(t@))] + rv);
    }
    object_of(ms)
}

pub(crate) fn member(k: &str, v: Json) -> (r: (String, Json))
    ensures
        r.0@ == k@,
        r.1@ == v@,
{
    (string_of(chars_of(k).as_slice()), v)
}

pub(crate) fn members1(a: (String, Json)) -> (r: Vec<(String, Json)>)
    ensures
        members_view(r@) == seq![(a.0@, a.1@)],
{
    let v = vec![a];
    proof {
        lemma_members_view(v@);
    }
    assert(members_view(v@) =~= seq![(a.0@, a.1@)]);
    v
}

pub(crate) fn members2(a: (String, Json), b: (String, Json)) -> (r: Vec<(String, Json)>)
    ensures
        members_view(r@) == seq![(a.0@, a.1@), (b.0@, b.1@)],
{
    let v = vec![a, b];
    proof {
        lemma_members_view(v@);
    }
    assert(members_view(v@) =~= seq![(a.0@, a.1@), (b.0@, b.1@)]);
    v
}

pub(crate) fn members3(a: (String, Json), b: (String, Json), c: (String, Json)) -> (r: Vec<(String, Json)>)
    ensures
        members_view(r@) == seq![(a.0@, a.1@), (b.0@, b.1@), (c.0@, c.1@)],
{
    let v = vec![a, b, c];
    proof {
        lemma_members_view(v@);
    }
    assert(members_view(v@) =~= seq![(a.0@, a.1@), (b.0@, b.1@), (c.0@, c.1@)]);
    v
}

pub(crate) fn no_members() -> (r: Vec<(String, Json)>)
    ensures
        members_view(r@) == Seq::<(Seq<char>, JsonV)>::empty(),
{
    let v: Vec<(String, Json)> = Vec::new();
    assert(members_view(v@) =~= Seq::<(Seq<char>, JsonV)>::empty());
    v
}

fn strings_json(ss: &Vec<String>) -> (r: Json)
    ensures
        r@ == JsonV::Array(strs_v(ss@)),
{
    let mut items: Vec<Json> = Vec::new();
    let mut i: usize = 0;
    while i < ss.len()
        invariant
            i <= ss@.len(),
            items_view(items@) == strs_v(ss@.subrange(0, i as int)),
        decreases ss@.len() - i,
    {
        let ghost before = items@;
        items.push(text_json(ss[i].as_str()));
        proof {
            lemma_items_view(before);
            lemma_items_view(items@);
            let t = strs_v(ss@.subrange(0, i + 1));
            assert forall|k: int| 0 <= k < i + 1 implies #[trigger] items_view(items@)[k] == t[k] by {
                if k < i {
                    assert(items@[k] == before[k]);
                    assert(items_view(before)[k] == strs_v(ss@.subrange(0, i as int))[k]);
                }
            }
            assert(items_view(items@) =~= t);
        }
        i = i + 1;
    }
    assert(ss@.subrange(0, ss@.len() as int) =~= ss@);
    Json::Array(items)
}

/// An action as the JSON object the agent reads.
pub fn action_json(a: &Action) -> (r: Json)
    ensures
        r@ == action_v(*a),
{
    match a {
        Action::Assign { expr, value } => tagged_json(
            "set",
            members2(member("expr", text_json(expr.as_str())), member("value", copy_json(value))),
        ),
        Action::Eval { expr } => tagged_json("eval", members1(member("expr", text_json(expr.as_str())))),
        Action::Freeze { key, expr, value } => tagged_json(
            "freeze",
            members3(
                member("key", text_json(key.as_str())),
                member("expr", text_json(expr.as_str())),
                member("value", copy_json(value)),
            ),
        ),
        Action::FreezeRun { key, run } => tagged_json(
            "freeze",
            members2(member("key", text_json(key.as_str())), member("run", text_json(run.as_str()))),
        ),
        Action::Unfreeze { key } => tagged_json(
            "unfreeze",
            members1(member("key", text_json(key.as_str()))),
        ),
        Action::Watch { exprs } => tagged_json("watch", members1(member("exprs", strings_json(exprs)))),
        Action::Catalog => tagged_json("catalog", no_members()),
        Action::BattleWin => tagged_json("battle_win", no_members()),
        Action::BattleLose => tagged_json("battle_lose", no_members()),
        Action::Recover => tagged_json("recover", no_members()),
    }
}

/// The number `n` as JSON holds it.
pub open spec fn uint_v(n: u64) -> JsonV {
    JsonV::Number(
        if n <= i64::MAX {
            Some(n as i64)
        } else {
            None
        },
        Some(n),
        render(n as nat, 10, false),
    )
}

/// The integer `n` as JSON holds it.
pub open spec fn int_v(n: i64) -> JsonV {
    JsonV::Number(
        Some(n),
        if n >= 0 {
            Some(n as u64)
        } else {
            None
        },
        render_int(n as int),
    )
}

/// The integer `n` as JSON.
pub fn int_json(n: i64) -> (r: Json)
    ensures
        r@ == int_v(n),
{
    Json::Number(
        JsonNumber {
            int: Some(n),
            uint: if n >= 0 {
                Some(n as u64)
            } else {
                None
            },
            text: string_of(render_i64(n).as_slice()),
        },
    )
}

/// The number `n` as JSON.
pub(crate) fn uint_json(n: u64) -> (r: Json)
    ensures
        r@ == uint_v(n),
{
    Json::Number(
        JsonNumber {
            int: if n <= 0x7fff_ffff_ffff_ffff {
                Some(n as i64)
            } else {
                None
            },
            uint: Some(n),
            text: string_of(render_u64(n, 10, false).as_slice()),
        },
    )
}

pub(crate) fn members4(
    a: (String, Json),
    b: (String, Json),
    c: (String, Json),
    d: (String, Json),
) -> (r: Vec<(String, Json)>)
    ensures
        members_view(r@) == seq![(a.0@, a.1@), (b.0@, b.1@), (c.0@, c.1@), (d.0@, d.1@)],
{
    let v = vec![a, b, c, d];
    proof {
        lemma_members_view(v@);
    }
    assert(members_view(v@) =~= seq![(a.0@, a.1@), (b.0@, b.1@), (c.0@, c.1@), (d.0@, d.1@)]);
    v
}

/// The command the agent reads from `cmd.json`: `{"id": id, "actions": [...]}`.
pub open spec fn command_v(id: u64, actions: Seq<Action>) -> JsonV {
    JsonV::Object(
        seq![
            ("id"@, uint_v(id)),
            ("actions"@, JsonV::Array(actions.map_values(|x: Action| action_v(x)))),
        ],
    )
}

/// The command object for a batch of actions, stamped `id`.
pub fn command_json(id: u64, actions: &[Action]) -> (r: Json)
    ensures
        r@ == command_v(id, actions@),
{
    let mut items: Vec<Json> = Vec::new();
    let mut i: usize = 0;
    while i < actions.len()
        invariant
            i <= actions@.len(),
            items_view(items@) == actions@.subrange(0, i as int).map_values(|x: Action| action_v(x)),
        decreases actions@.len() - i,
    {
        let ghost before = items@;
        items.push(action_json(&actions[i]));
        proof {
            lemma_items_view(before);
            lemma_items_view(items@);
            let t = actions@.subrange(0, i + 1).map_values(|x: Action| action_v(x));
            assert forall|k: int| 0 <= k < i + 1 implies #[trigger] items_view(items@)[k] == t[k] by {
                if k < i {
                    assert(items@[k] == before[k]);
                    assert(items_view(before)[k] == actions@.subrange(0, i as int).map_values(
                        |x: Action| action_v(x),
                    )[k]);
                }
            }
            assert(items_view(items@) =~= t);
        }
        i = i + 1;
    }
    assert(actions@.subrange(0, actions@.len() as int) =~= actions@);
    object_of(members2(member("id", uint_json(id)), member("actions", Json::Array(items))))
}

/// A state with no members reads as the default snapshot (zero stamp,
/// empty texts and lists, no gold, flags off); a member of the wrong JSON
/// kind counts as missing.
pub proof fn law_snapshot_defaults(v: JsonV)
    ensures
        ({
            let d = snapshot_of(JsonV::Object(seq![]));
            &&& d.ts == 0
            &&& !d.rpgmaker
            &&& d.engine.len() == 0
            &&& d.title.len() == 0
            &&& d.gold is None
            &&& d.party.len() == 0
            &&& d.freezes.len() == 0
            &&& !d.in_battle
            &&& !d.stopped
            &&& d.error is None
            &&& d.agent_hash is None
        }),
        as_uint(get(v, "ts"@)) is None ==> snapshot_of(v).ts == 0,
        as_int(get(v, "gold"@)) is None ==> snapshot_of(v).gold is None,
        as_text(get(v, "engine"@)) is None ==> snapshot_of(v).engine.len() == 0,
        as_text(get(v, "title"@)) is None ==> snapshot_of(v).title.len() == 0,
        as_items(get(v, "party"@)) is None ==> snapshot_of(v).party.len() == 0,
        as_items(get(v, "freezes"@)) is None ==> snapshot_of(v).freezes.len() == 0,
        as_text(get(v, "error"@)) is None ==> snapshot_of(v).error is None,
{
    reveal_strlit("");
}

/// Installing into a page that holds the game's `js/main.js` script and no
/// plugin yet puts the plugin's `<script>` and a line break right before
/// the `<script` of that element; installing again leaves the page as it
/// is.
pub proof fn law_install_page(html: Seq<char>, anchor: int, p: int)
    requires
        !contains(html, "cheatu_agent.js"@),
        first_index(html, "src=\"js/main.js\""@) == Some(anchor),
        last_index(html.subrange(0, anchor), "<script"@) == Some(p),
    ensures
        injected(html) == Ok::<Option<Seq<char>>, Seq<char>>(
            Some(html.subrange(0, p) + SCRIPT_TAG@ + "\n    "@ + html.subrange(p, html.len() as int)),
        ),
        injected(html.subrange(0, p) + SCRIPT_TAG@ + "\n    "@ + html.subrange(p, html.len() as int))
            == Ok::<Option<Seq<char>>, Seq<char>>(None),
{
    law_injection_idempotent(html);
}

} // verus!
