//! RPG Maker MV/MZ operations expressed as JavaScript run in the game over
//! the DevTools connection. They go through the engine's own data model, so
//! the game stays consistent.
//!
//! Running the JavaScript is the caller's part.

use vstd::prelude::*;
use crate::json::{as_text, items_view, lemma_items_view, text_or, Json, JsonV};
use crate::numeral::{render, render_i64, render_int, render_u64};
use crate::text::{append_chars, push_str, string_of};

verus! {

/// Whether the RPG Maker runtime is loaded (a game is in progress).
pub const IS_PRESENT_JS: &'static str = "typeof $gameParty !== 'undefined' && $gameParty !== null";

/// `"MV"`, `"MZ"`, or empty where unknown.
pub const ENGINE_NAME_JS: &'static str = "(typeof Utils!=='undefined' && Utils.RPGMAKER_NAME) || ''";

/// The game's title from its system data.
pub const GAME_TITLE_JS: &'static str = "(typeof $dataSystem!=='undefined' && $dataSystem && $dataSystem.gameTitle) || ''";

/// The party's gold.
pub const GOLD_JS: &'static str = "$gameParty.gold()";

/// The names of the current party members.
pub const PARTY_NAMES_JS: &'static str = "$gameParty.members().map(function(a){return a.name();})";

/// Restore HP and MP of every party member to full.
pub const HEAL_PARTY_JS: &'static str = "$gameParty.members().forEach(function(a){a.recoverAll();})";

/// Set party gold, clamped to the engine's maximum as the game would.
pub open spec fn set_gold_text(amount: i64) -> Seq<char> {
    "$gameParty._gold = Math.min("@ + render_int(amount as int) + ", $gameParty.maxGold())"@
}

pub fn set_gold_js(amount: i64) -> (r: String)
    ensures
        r@ == set_gold_text(amount),
{
    let mut out: Vec<char> = Vec::new();
    push_str(&mut out, "$gameParty._gold = Math.min(");
    let d = render_i64(amount);
    append_chars(&mut out, d.as_slice());
    push_str(&mut out, ", $gameParty.maxGold())");
    string_of(out.as_slice())
}

/// The value of game variable `id`.
pub open spec fn variable_text(id: u32) -> Seq<char> {
    "$gameVariables.value("@ + render(id as nat, 10, false) + ")"@
}

pub fn variable_js(id: u32) -> (r: String)
    ensures
        r@ == variable_text(id),
{
    let mut out: Vec<char> = Vec::new();
    push_str(&mut out, "$gameVariables.value(");
    let d = render_u64(id as u64, 10, false);
    append_chars(&mut out, d.as_slice());
    push_str(&mut out, ")");
    string_of(out.as_slice())
}

/// Turn game switch `id` on or off.
pub open spec fn switch_text(id: u32, on: bool) -> Seq<char> {
    "$gameSwitches.setValue("@ + render(id as nat, 10, false) + ", "@ + (if on {
        "true"@
    } else {
        "false"@
    }) + ")"@
}

pub fn set_switch_js(id: u32, on: bool) -> (r: String)
    ensures
        r@ == switch_text(id, on),
{
    let mut out: Vec<char> = Vec::new();
    push_str(&mut out, "$gameSwitches.setValue(");
    let d = render_u64(id as u64, 10, false);
    append_chars(&mut out, d.as_slice());
    push_str(&mut out, ", ");
    if on {
        push_str(&mut out, "true");
    } else {
        push_str(&mut out, "false");
    }
    push_str(&mut out, ")");
    string_of(out.as_slice())
}

/// A switch expression calls `$gameSwitches.setValue` with the switch's
/// decimal number and the state asked for: it ends in `false)` exactly when
/// turning the switch off and in `true)` when turning it on, so on and off
/// never give the same expression.
pub proof fn law_switch_state(id: u32, on: bool)
    ensures
        ({
            let t = switch_text(id, on);
            let head = "$gameSwitches.setValue("@ + render(id as nat, 10, false) + ", "@;
            &&& t.len() >= head.len() + 5
            &&& t.subrange(0, head.len() as int) == head
            &&& (t.subrange(t.len() - 6, t.len() as int) == "false)"@) == !on
            &&& on ==> t.subrange(t.len() - 5, t.len() as int) == "true)"@
        }),
        switch_text(id, true) != switch_text(id, false),
{
    reveal_strlit("true");
    reveal_strlit("false");
    reveal_strlit(")");
    reveal_strlit("true)");
    reveal_strlit("false)");
    let head = "$gameSwitches.setValue("@ + render(id as nat, 10, false) + ", "@;
    let w = if on {
        "true"@
    } else {
        "false"@
    };
    let t = switch_text(id, on);
    assert(t =~= head + (w + ")"@));
    assert(t.subrange(0, head.len() as int) =~= head);
    if on {
        assert(t.subrange(t.len() - 5, t.len() as int) =~= "true)"@);
        assert(t.subrange(t.len() - 6, t.len() as int)[1] == 't');
        assert("false)"@[1] == 'a');
    } else {
        assert(t.subrange(t.len() - 6, t.len() as int) =~= "false)"@);
    }
    let a = switch_text(id, true);
    let b = switch_text(id, false);
    assert(a =~= head + ("true"@ + ")"@));
    assert(b =~= head + ("false"@ + ")"@));
    assert(a.len() != b.len());
}

/// The party's names from the value [`PARTY_NAMES_JS`] evaluated to: each
/// string as it is, anything else as `"?"`; none where it is not an array.
pub open spec fn names_of(v: JsonV) -> Seq<Seq<char>> {
    match v {
        JsonV::Array(a) => a.map_values(|x: JsonV| text_or(as_text(Some(x)), "?"@)),
        _ => seq![],
    }
}

pub fn party_names(v: &Json) -> (r: Vec<String>)
    ensures
        r@.map_values(|s: String| s@) == names_of(v@),
{
    let mut out: Vec<String> = Vec::new();
    match v.as_array() {
        Some(arr) => {
            proof {
                lemma_items_view(arr@);
            }
            let ghost items = items_view(arr@);
            let mut i: usize = 0;
            while i < arr.len()
                invariant
                    i <= arr@.len(),
                    items == items_view(arr@),
                    items.len() == arr@.len(),
                    forall|j: int| 0 <= j < arr@.len() ==> #[trigger] items[j] == arr@[j]@,
                    out@.len() == i,
                    forall|j: int|
                        0 <= j < i ==> #[trigger] out@[j]@ == text_or(as_text(Some(items[j])), "?"@),
                decreases arr@.len() - i,
            {
                let s = match arr[i].as_str() {
                    Some(t) => t.to_string(),
                    None => "?".to_string(),
                };
                out.push(s);
                i = i + 1;
            }
            assert(out@.map_values(|s: String| s@) =~= items.map_values(
                |x: JsonV| text_or(as_text(Some(x)), "?"@),
            ));
        },
        None => {
            assert(out@.map_values(|s: String| s@) =~= Seq::<Seq<char>>::empty());
        },
    }
    out
}

} // verus!
