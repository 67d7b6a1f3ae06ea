//! Turning on the DevTools port of an NW.js game through the
//! `chromium-args` of its `package.json`.
//!
//! Reading, backing up and writing the manifest, and writing JSON text, is
//! the caller's part.

use vstd::prelude::*;
use crate::fspath::{join_path, joined};
use crate::json::{
    as_text, get, json_parse, lemma_members_view, members_view, parse_json, prefixed, set_member,
    text_or, text_or_default, with_member, Json, JsonV,
};
use crate::numeral::{render, render_u64};
use crate::text::{append_chars, chars_of, contains, find, push_str, string_of};

verus! {

/// The DevTools port cheatu uses by default.
pub const DEFAULT_PORT: u16 = 9222;

/// Locate the NW.js manifest that carries `chromium-args`: the top-level
/// `package.json` (the one whose `main` points into `www/`).
pub fn manifest_path(game_dir: &str) -> (r: String)
    ensures
        r@ == joined(game_dir@, "package.json"@),
{
    proof {
        reveal_strlit("package.json");
    }
    join_path(game_dir, "package.json")
}

/// Where the original manifest is kept while debugging is enabled.
pub fn manifest_backup_path(game_dir: &str) -> (r: String)
    ensures
        r@ == joined(game_dir@, "package.json.cheatu-bak"@),
{
    proof {
        reveal_strlit("package.json.cheatu-bak");
    }
    join_path(game_dir, "package.json.cheatu-bak")
}

/// The manifest's `chromium-args` (empty where it is missing or not a
/// string).
pub fn chromium_args(manifest: &Json) -> (r: String)
    ensures
        r@ == text_or(as_text(get(manifest@, "chromium-args"@)), ""@),
{
    text_or_default(manifest.get("chromium-args"), "")
}

/// The `chromium-args` that turn on remote debugging on `port`: none where
/// `args` already mentions `--remote-debugging-port` (nothing to change);
/// else the flag, after `args` and a space where `args` is not empty.
pub open spec fn debugging_args_text(args: Seq<char>, port: u16) -> Option<Seq<char>> {
    let flag = "--remote-debugging-port="@ + render(port as nat, 10, false);
    if contains(args, "--remote-debugging-port"@) {
        None
    } else if args.len() == 0 {
        Some(flag)
    } else {
        Some(args + " "@ + flag)
    }
}

/// The new `chromium-args`, if they need to change.
pub fn debugging_args(args: &str, port: u16) -> (r: Option<String>)
    ensures
        match r {
            Some(s) => debugging_args_text(args@, port) == Some(s@),
            None => debugging_args_text(args@, port) is None,
        },
{
    let cs = chars_of(args);
    let pat = chars_of("--remote-debugging-port");
    if find(cs.as_slice(), pat.as_slice()).is_some() {
        return None;
    }
    let mut out: Vec<char> = Vec::new();
    if cs.len() > 0 {
        append_chars(&mut out, cs.as_slice());
        push_str(&mut out, " ");
    }
    push_str(&mut out, "--remote-debugging-port=");
    let digits = render_u64(port as u64, 10, false);
    append_chars(&mut out, digits.as_slice());
    Some(string_of(out.as_slice()))
}


/// Enabling remote debugging is idempotent: once the arguments carry the
/// flag, enabling again changes nothing.
pub proof fn law_enable_idempotent(args: Seq<char>, port: u16)
    ensures
        match debugging_args_text(args, port) {
            Some(t) => debugging_args_text(t, port) is None,
            None => true,
        },
{
    reveal_strlit("--remote-debugging-port=");
    reveal_strlit("--remote-debugging-port");
    reveal_strlit(" ");
    let flag = "--remote-debugging-port="@ + render(port as nat, 10, false);
    let pat = "--remote-debugging-port"@;
    if !contains(args, pat) {
        let t = if args.len() == 0 {
            flag
        } else {
            args + " "@ + flag
        };
        let i: int = if args.len() == 0 {
            0
        } else {
            args.len() as int + 1
        };
        assert(t.subrange(i, i + 23) =~= pat);
        assert(crate::text::occurs_at(t, pat, i));
    }
}

/// What enabling remote debugging on `port` does to the manifest `v`:
/// nothing where its `chromium-args` already carry the flag; else the
/// manifest with the new `chromium-args` (a `null` manifest becomes an
/// object holding just them). Another kind of JSON value cannot take the
/// member.
pub open spec fn enabled_manifest(v: JsonV, port: u16) -> Result<Option<JsonV>, Seq<char>> {
    match debugging_args_text(text_or(as_text(get(v, "chromium-args"@)), ""@), port) {
        None => Ok(None),
        Some(a) => match v {
            JsonV::Object(ms) => Ok(Some(JsonV::Object(set_member(ms, "chromium-args"@, JsonV::Str(a))))),
            JsonV::Null => Ok(Some(JsonV::Object(seq![("chromium-args"@, JsonV::Str(a))]))),
            _ => Err("package.json is not a JSON object"@),
        },
    }
}

/// The manifest to write to turn on remote debugging, from the text of
/// `package.json`: none where it is already on.
pub fn enable_manifest(text: &str, port: u16) -> (r: Result<Option<Json>, String>)
    ensures
        match json_parse(text@) {
            Err(e) => r matches Err(m) && m@ == "parse package.json: "@ + e,
            Ok(v) => match enabled_manifest(v, port) {
                Ok(Some(w)) => r matches Ok(Some(j)) && j@ == w,
                Ok(None) => r matches Ok(None),
                Err(e) => r matches Err(m) && m@ == e,
            },
        },
{
    let v = match parse_json(text) {
        Ok(v) => v,
        Err(e) => {
            return Err(prefixed("parse package.json: ", e.as_str()));
        },
    };
    enabled_manifest_of(&v, port)
}

/// What enabling remote debugging on `port` does to the parsed manifest
/// `v` (see [`enabled_manifest`]): none where it is already on.
pub fn enabled_manifest_of(v: &Json, port: u16) -> (r: Result<Option<Json>, String>)
    ensures
        match enabled_manifest(v@, port) {
            Ok(Some(w)) => r matches Ok(Some(j)) && j@ == w,
            Ok(None) => r matches Ok(None),
            Err(e) => r matches Err(m) && m@ == e,
        },
{
    let args = chromium_args(v);
    let new_args = match debugging_args(args.as_str(), port) {
        Some(a) => a,
        None => {
            return Ok(None);
        },
    };
    let key = "chromium-args";
    match v {
        Json::Object(ms) => {
            let out = with_member(ms.as_slice(), key, Json::Str(new_args));
            Ok(Some(Json::Object(out)))
        },
        Json::Null => {
            let ms = vec![(key.to_string(), Json::Str(new_args))];
            proof {
                lemma_members_view(ms@);
            }
            assert(members_view(ms@) =~= seq![("chromium-args"@, JsonV::Str(new_args@))]);
            Ok(Some(Json::Object(ms)))
        },
        _ => Err("package.json is not a JSON object".to_string()),
    }
}

} // verus!
