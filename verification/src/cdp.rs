//! The decisions of a minimal Chrome DevTools Protocol client: which page
//! target to attach to, which reply answers a request, and what an
//! evaluation returned.
//!
//! The HTTP and WebSocket traffic, and writing JSON text, is the caller's part.

use vstd::prelude::*;
use crate::json::{
    as_text, copy_json, get, get_in, get_opt, items_view, lemma_items_view, text_of,
    text_or, as_uint, uint_of, json_parse, parse_json, prefixed, Json, JsonV,
};
use crate::numeral::{render, render_u64};
use crate::agent::{member, members3, members4, no_members, object_of, text_json, uint_json, uint_v};
use crate::process::{lossy_string, utf8_lossy};
use crate::text::{
    append_chars, chars_of, contains, find, find_first, first_index, push_str, string_of, trim,
    trimmed,
};

verus! {

/// What `Runtime.evaluate` returned: the thrown exception's description (or
/// else its text, or else `"JavaScript error"`) where the result reports an
/// exception; otherwise the result's value, or `null` where there is none.
pub open spec fn outcome_of(result: JsonV) -> Result<JsonV, Seq<char>> {
    match get(result, "exceptionDetails"@) {
        Some(exc) => Err(
            match as_text(get_in(get(exc, "exception"@), "description"@)) {
                Some(d) => d,
                None => text_or(as_text(get(exc, "text"@)), "JavaScript error"@),
            },
        ),
        None => Ok(
            match get_in(get(result, "result"@), "value"@) {
                Some(v) => v,
                None => JsonV::Null,
            },
        ),
    }
}

/// The value or the error of an evaluation, from the `result` of its reply.
pub fn eval_outcome(result: &Json) -> (r: Result<Json, String>)
    ensures
        match r {
            Ok(v) => outcome_of(result@) == Ok::<JsonV, Seq<char>>(v@),
            Err(e) => outcome_of(result@) == Err::<JsonV, Seq<char>>(e@),
        },
{
    match result.get("exceptionDetails") {
        Some(exc) => {
            let text = match text_of(get_opt(exc.get("exception"), "description")) {
                Some(d) => d.to_string(),
                None => match text_of(exc.get("text")) {
                    Some(t) => t.to_string(),
                    None => "JavaScript error".to_string(),
                },
            };
            Err(text)
        },
        None => match get_opt(result.get("result"), "value") {
            Some(v) => Ok(copy_json(v)),
            None => Ok(Json::Null),
        },
    }
}

/// A message read from the DevTools socket, against the id of the request
/// that waits for its reply.
#[derive(Debug)]
pub enum Reply {
    /// Not the reply awaited (a protocol event, or another id).
    Other,
    /// The reply, with its `result` (`null` where there is none).
    Done(Json),
    /// The reply reports an error.
    Failed(Json),
}

pub open spec fn reply_of(v: JsonV, id: u64) -> (Option<Result<JsonV, JsonV>>) {
    if as_uint(get(v, "id"@)) != Some(id) {
        None
    } else {
        match get(v, "error"@) {
            Some(e) => Some(Err(e)),
            None => Some(
                Ok(
                    match get(v, "result"@) {
                        Some(x) => x,
                        None => JsonV::Null,
                    },
                ),
            ),
        }
    }
}

/// Whether message `v` answers request `id`, and how.
pub fn reply_for(v: &Json, id: u64) -> (r: Reply)
    ensures
        match r {
            Reply::Other => reply_of(v@, id) is None,
            Reply::Done(x) => reply_of(v@, id) == Some(Ok::<JsonV, JsonV>(x@)),
            Reply::Failed(e) => reply_of(v@, id) == Some(Err::<JsonV, JsonV>(e@)),
        },
{
    match uint_of(v.get("id")) {
        Some(got) => {
            if got != id {
                return Reply::Other;
            }
        },
        None => {
            return Reply::Other;
        },
    }
    match v.get("error") {
        Some(e) => Reply::Failed(copy_json(e)),
        None => match v.get("result") {
            Some(x) => Reply::Done(copy_json(x)),
            None => Reply::Done(Json::Null),
        },
    }
}

/// The WebSocket URL of the page target to attach to, from the DevTools
/// target list: the first page whose URL mentions `index.html` (the game's
/// main page), else the first page with a WebSocket URL.
pub open spec fn target_from(ts: Seq<JsonV>, fallback: Option<Seq<char>>) -> Result<
    Seq<char>,
    Seq<char>,
>
    decreases ts.len(),
{
    if ts.len() == 0 {
        match fallback {
            Some(w) => Ok(w),
            None => Err("no debuggable page target found"@),
        }
    } else {
        let t = ts[0];
        if as_text(get(t, "type"@)) != Some("page"@) {
            target_from(ts.drop_first(), fallback)
        } else {
            match as_text(get(t, "webSocketDebuggerUrl"@)) {
                None => target_from(ts.drop_first(), fallback),
                Some(ws) => if contains(text_or(as_text(get(t, "url"@)), ""@), "index.html"@) {
                    Ok(ws)
                } else {
                    target_from(
                        ts.drop_first(),
                        match fallback {
                            Some(f) => Some(f),
                            None => Some(ws),
                        },
                    )
                },
            }
        }
    }
}

pub open spec fn page_target_of(targets: JsonV) -> Result<Seq<char>, Seq<char>> {
    match targets {
        JsonV::Array(ts) => target_from(ts, None),
        _ => Err("unexpected /json response"@),
    }
}

/// Choose the page target from the parsed `/json/list` response.
pub fn page_target(targets: &Json) -> (r: Result<String, String>)
    ensures
        match r {
            Ok(u) => page_target_of(targets@) == Ok::<Seq<char>, Seq<char>>(u@),
            Err(e) => page_target_of(targets@) == Err::<Seq<char>, Seq<char>>(e@),
        },
{
    let arr = match targets.as_array() {
        Some(a) => a,
        None => {
            return Err("unexpected /json response".to_string());
        },
    };
    proof {
        lemma_items_view(arr@);
    }
    let ghost ts = items_view(arr@);
    let mut fallback: Option<String> = None;
    let mut i: usize = 0;
    assert(ts.subrange(0, ts.len() as int) =~= ts);
    while i < arr.len()
        invariant
            i <= arr@.len(),
            ts == items_view(arr@),
            ts.len() == arr@.len(),
            forall|j: int| 0 <= j < arr@.len() ==> #[trigger] ts[j] == arr@[j]@,
            page_target_of(targets@) == target_from(
                ts.subrange(i as int, ts.len() as int),
                match fallback {
                    Some(f) => Some(f@),
                    None => None,
                },
            ),
        decreases arr@.len() - i,
    {
        let t = &arr[i];
        let ghost rest = ts.subrange(i as int, ts.len() as int);
        assert(rest[0] == t@);
        assert(rest.drop_first() =~= ts.subrange(i + 1, ts.len() as int));
        let is_page = match text_of(t.get("type")) {
            Some(ty) => crate::text::text_eq(ty, "page"),
            None => false,
        };
        if is_page {
            match text_of(t.get("webSocketDebuggerUrl")) {
                Some(ws) => {
                    let url = match text_of(t.get("url")) {
                        Some(u) => chars_of(u),
                        None => chars_of(""),
                    };
                    let pat = chars_of("index.html");
                    if find(url.as_slice(), pat.as_slice()).is_some() {
                        return Ok(ws.to_string());
                    }
                    if fallback.is_none() {
                        fallback = Some(ws.to_string());
                    }
                },
                None => {},
            }
        }
        i = i + 1;
    }
    match fallback {
        Some(f) => Ok(f),
        None => Err("no debuggable page target found".to_string()),
    }
}

/// The body of an HTTP response: what follows the first blank line
/// (`\r\n\r\n`), or nothing where there is none; refused when it is only
/// whitespace.
pub open spec fn body_of(text: Seq<char>) -> Result<Seq<char>, Seq<char>> {
    let body = match first_index(text, "\r\n\r\n"@) {
        Some(i) => text.subrange(i + 4, text.len() as int),
        None => seq![],
    };
    if trim(body).len() == 0 {
        Err("empty response"@)
    } else {
        Ok(body)
    }
}

/// The body of a response whose text (decoded as lossy UTF-8) is `text`.
pub fn http_body_text(text: &str) -> (r: Result<String, String>)
    ensures
        match r {
            Ok(b) => body_of(text@) == Ok::<Seq<char>, Seq<char>>(b@),
            Err(e) => body_of(text@) == Err::<Seq<char>, Seq<char>>(e@),
        },
{
    let cs = chars_of(text);
    let sep = chars_of("\r\n\r\n");
    proof {
        reveal_strlit("\r\n\r\n");
        assert(sep@.len() == 4);
    }
    let body: Vec<char> = match find_first(cs.as_slice(), sep.as_slice()) {
        Some(i) => {
            assert(crate::text::occurs_at(cs@, sep@, i as int));
            assert(i + 4 <= cs@.len());
            vstd::slice::slice_to_vec(vstd::slice::slice_subrange(cs.as_slice(), i + 4, cs.len()))
        },
        None => Vec::new(),
    };
    assert(body@ =~= match first_index(text@, "\r\n\r\n"@) {
        Some(i) => text@.subrange(i + 4, text@.len() as int),
        None => seq![],
    });
    let t = trimmed(body.as_slice());
    if t.len() == 0 {
        Err("empty response".to_string())
    } else {
        Ok(string_of(body.as_slice()))
    }
}

/// The body of a raw HTTP response.
pub fn http_body(raw: &[u8]) -> (r: Result<String, String>)
    ensures
        match r {
            Ok(b) => body_of(utf8_lossy(raw@)) == Ok::<Seq<char>, Seq<char>>(b@),
            Err(e) => body_of(utf8_lossy(raw@)) == Err::<Seq<char>, Seq<char>>(e@),
        },
{
    let text = lossy_string(raw);
    http_body_text(text.as_str())
}

/// The HTTP request for `path` on the DevTools endpoint at `port`.
pub open spec fn request_text(path: Seq<char>, port: u16) -> Seq<char> {
    "GET "@ + path + " HTTP/1.1\r\nHost: 127.0.0.1:"@ + render(port as nat, 10, false)
        + "\r\nAccept: application/json\r\nConnection: close\r\n\r\n"@
}

pub fn http_request(path: &str, port: u16) -> (r: String)
    ensures
        r@ == request_text(path@, port),
{
    let mut out: Vec<char> = Vec::new();
    push_str(&mut out, "GET ");
    push_str(&mut out, path);
    push_str(&mut out, " HTTP/1.1\r\nHost: 127.0.0.1:");
    let d = render_u64(port as u64, 10, false);
    append_chars(&mut out, d.as_slice());
    push_str(&mut out, "\r\nAccept: application/json\r\nConnection: close\r\n\r\n");
    string_of(out.as_slice())
}

/// Whether the WebSocket message `text` answers request `id`, and how; the
/// parse error after "parse: " where it is not JSON.
pub fn reply_text(text: &str, id: u64) -> (r: Result<Reply, String>)
    ensures
        match json_parse(text@) {
            Err(e) => r matches Err(m) && m@ == "parse: "@ + e,
            Ok(v) => match r {
                Ok(Reply::Other) => reply_of(v, id) is None,
                Ok(Reply::Done(x)) => reply_of(v, id) == Some(Ok::<JsonV, JsonV>(x@)),
                Ok(Reply::Failed(e)) => reply_of(v, id) == Some(Err::<JsonV, JsonV>(e@)),
                Err(_) => false,
            },
        },
{
    match parse_json(text) {
        Ok(v) => Ok(reply_for(&v, id)),
        Err(e) => Err(prefixed("parse: ", e.as_str())),
    }
}

/// The page target's WebSocket URL, from the body of the `/json/list`
/// response; the parse error after "bad /json response: " where it is not
/// JSON.
pub fn page_target_text(body: &str) -> (r: Result<String, String>)
    ensures
        match json_parse(body@) {
            Err(e) => r matches Err(m) && m@ == "bad /json response: "@ + e,
            Ok(v) => match r {
                Ok(u) => page_target_of(v) == Ok::<Seq<char>, Seq<char>>(u@),
                Err(m) => page_target_of(v) == Err::<Seq<char>, Seq<char>>(m@),
            },
        },
{
    match parse_json(body) {
        Ok(v) => page_target(&v),
        Err(e) => Err(prefixed("bad /json response: ", e.as_str())),
    }
}

/// A DevTools request: `{"id": id, "method": method, "params": params}`.
pub open spec fn call_v(id: u64, method: Seq<char>, params: JsonV) -> JsonV {
    JsonV::Object(
        seq![("id"@, uint_v(id)), ("method"@, JsonV::Str(method)), ("params"@, params)],
    )
}

/// The request message for `method` with `params`, numbered `id`.
pub fn call_json(id: u64, method: &str, params: Json) -> (r: Json)
    ensures
        r@ == call_v(id, method@, params@),
{
    object_of(
        members3(member("id", uint_json(id)), member("method", text_json(method)), member("params", params)),
    )
}

/// The parameters of `Runtime.evaluate` for `expression`: the value is
/// returned by value, promises are awaited, in REPL mode.
pub open spec fn evaluate_v(expression: Seq<char>) -> JsonV {
    JsonV::Object(
        seq![
            ("expression"@, JsonV::Str(expression)),
            ("returnByValue"@, JsonV::Bool(true)),
            ("awaitPromise"@, JsonV::Bool(true)),
            ("replMode"@, JsonV::Bool(true)),
        ],
    )
}

/// The parameters of `Runtime.evaluate` for `expression`.
pub fn evaluate_params(expression: &str) -> (r: Json)
    ensures
        r@ == evaluate_v(expression@),
{
    object_of(
        members4(
            member("expression", text_json(expression)),
            member("returnByValue", Json::Bool(true)),
            member("awaitPromise", Json::Bool(true)),
            member("replMode", Json::Bool(true)),
        ),
    )
}

/// Empty parameters (`{}`).
pub fn no_params() -> (r: Json)
    ensures
        r@ == JsonV::Object(seq![]),
{
    object_of(no_members())
}

} // verus!
