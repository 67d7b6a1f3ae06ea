//! A JSON document model: what the library reads from the JSON that the
//! game-side agent and the DevTools endpoint produce.
//!
//! JSON text is parsed and written by `serde_json` (see [`parse_json`] and
//! [`json_text`]); this module holds the parsed value and the lookups the
//! library's logic makes.

use vstd::prelude::*;
use crate::text::{chars_of, push_str, string_of, text_eq};
use serde_json::Value;

verus! {

/// A JSON number: its value as an `i64` and as a `u64` where it is an
/// integer in that range, and its text as JSON writes it.
#[derive(Debug)]
pub struct JsonNumber {
    pub int: Option<i64>,
    pub uint: Option<u64>,
    pub text: String,
}

/// A JSON value. Object members keep their order; keys are distinct.
#[derive(Debug)]
pub enum Json {
    Null,
    Bool(bool),
    Number(JsonNumber),
    Str(String),
    Array(Vec<Json>),
    Object(Vec<(String, Json)>),
}

/// The mathematical value of a [`Json`].
pub enum JsonV {
    Null,
    Bool(bool),
    Number(Option<i64>, Option<u64>, Seq<char>),
    Str(Seq<char>),
    Array(Seq<JsonV>),
    Object(Seq<(Seq<char>, JsonV)>),
}

pub open spec fn json_view(v: Json) -> JsonV
    decreases v,
{
    match v {
        Json::Null => JsonV::Null,
        Json::Bool(b) => JsonV::Bool(b),
        Json::Number(n) => JsonV::Number(n.int, n.uint, n.text@),
        Json::Str(s) => JsonV::Str(s@),
        Json::Array(a) => JsonV::Array(items_view(a@)),
        Json::Object(es) => JsonV::Object(members_view(es@)),
    }
}

pub open spec fn items_view(s: Seq<Json>) -> Seq<JsonV>
    decreases s,
{
    if s.len() == 0 {
        seq![]
    } else {
        seq![json_view(s[0])] + items_view(s.subrange(1, s.len() as int))
    }
}

pub open spec fn members_view(s: Seq<(String, Json)>) -> Seq<(Seq<char>, JsonV)>
    decreases s,
{
    if s.len() == 0 {
        seq![]
    } else {
        seq![(s[0].0@, json_view(s[0].1))] + members_view(s.subrange(1, s.len() as int))
    }
}

impl View for Json {
    type V = JsonV;

    open spec fn view(&self) -> JsonV {
        json_view(*self)
    }
}

pub proof fn lemma_items_view(s: Seq<Json>)
    ensures
        items_view(s).len() == s.len(),
        forall|i: int| 0 <= i < s.len() ==> #[trigger] items_view(s)[i] == json_view(s[i]),
    decreases s.len(),
{
    if s.len() > 0 {
        let t = s.subrange(1, s.len() as int);
        lemma_items_view(t);
        assert forall|i: int| 0 <= i < s.len() implies #[trigger] items_view(s)[i] == json_view(
            s[i],
        ) by {
            if i > 0 {
                assert(t[i - 1] == s[i]);
            }
        }
    }
}

pub proof fn lemma_members_view(s: Seq<(String, Json)>)
    ensures
        members_view(s).len() == s.len(),
        forall|i: int|
            0 <= i < s.len() ==> #[trigger] members_view(s)[i] == (s[i].0@, json_view(s[i].1)),
    decreases s.len(),
{
    if s.len() > 0 {
        let t = s.subrange(1, s.len() as int);
        lemma_members_view(t);
        assert forall|i: int| 0 <= i < s.len() implies #[trigger] members_view(s)[i] == (
            s[i].0@,
            json_view(s[i].1),
        ) by {
            if i > 0 {
                assert(t[i - 1] == s[i]);
            }
        }
    }
}

/// The value of the first member named `k`.
pub open spec fn member(es: Seq<(Seq<char>, JsonV)>, k: Seq<char>) -> Option<JsonV>
    decreases es.len(),
{
    if es.len() == 0 {
        None
    } else if es[0].0 == k {
        Some(es[0].1)
    } else {
        member(es.drop_first(), k)
    }
}

/// `value.get(k)`: the member `k` of an object; none for other values.
pub open spec fn get(v: JsonV, k: Seq<char>) -> Option<JsonV> {
    match v {
        JsonV::Object(es) => member(es, k),
        _ => None,
    }
}

/// `get(k)` on an optional value (`.and_then(|x| x.get(k))`).
pub open spec fn get_in(v: Option<JsonV>, k: Seq<char>) -> Option<JsonV> {
    match v {
        Some(x) => get(x, k),
        None => None,
    }
}

/// `value.as_str()`.
pub open spec fn as_text(v: Option<JsonV>) -> Option<Seq<char>> {
    match v {
        Some(JsonV::Str(s)) => Some(s),
        _ => None,
    }
}

/// `value.as_i64()`.
pub open spec fn as_int(v: Option<JsonV>) -> Option<i64> {
    match v {
        Some(JsonV::Number(i, _, _)) => i,
        _ => None,
    }
}

/// `value.as_u64()`.
pub open spec fn as_uint(v: Option<JsonV>) -> Option<u64> {
    match v {
        Some(JsonV::Number(_, u, _)) => u,
        _ => None,
    }
}

/// `value.as_bool()`.
pub open spec fn as_flag(v: Option<JsonV>) -> Option<bool> {
    match v {
        Some(JsonV::Bool(b)) => Some(b),
        _ => None,
    }
}

/// `value.as_array()`.
pub open spec fn as_items(v: Option<JsonV>) -> Option<Seq<JsonV>> {
    match v {
        Some(JsonV::Array(a)) => Some(a),
        _ => None,
    }
}

/// A copy of `v`.
pub fn copy_json(v: &Json) -> (r: Json)
    ensures
        r@ == v@,
    decreases v,
{
    match v {
        Json::Null => Json::Null,
        Json::Bool(b) => Json::Bool(*b),
        Json::Number(n) => Json::Number(
            JsonNumber { int: n.int, uint: n.uint, text: n.text.clone() },
        ),
        Json::Str(s) => Json::Str(s.clone()),
        Json::Array(a) => {
            let mut out: Vec<Json> = Vec::new();
            let mut i: usize = 0;
            while i < a.len()
                invariant
                    i <= a@.len(),
                    *v == Json::Array(*a),
                    out@.len() == i,
                    forall|j: int| 0 <= j < i ==> #[trigger] json_view(out@[j]) == json_view(a@[j]),
                decreases a@.len() - i,
            {
                proof {
                    assert(decreases_to!(*v => v->Array_0));
                    assert(decreases_to!(v->Array_0 => v->Array_0@));
                    assert(decreases_to!(v->Array_0@ => v->Array_0@[i as int]));
                }
                let c = copy_json(&a[i]);
                out.push(c);
                i = i + 1;
            }
            proof {
                lemma_items_view(out@);
                lemma_items_view(a@);
                assert(items_view(out@) =~= items_view(a@));
            }
            Json::Array(out)
        },
        Json::Object(es) => {
            let mut out: Vec<(String, Json)> = Vec::new();
            let mut i: usize = 0;
            while i < es.len()
                invariant
                    i <= es@.len(),
                    *v == Json::Object(*es),
                    out@.len() == i,
                    forall|j: int|
                        0 <= j < i ==> #[trigger] out@[j].0@ == es@[j].0@ && json_view(out@[j].1)
                            == json_view(es@[j].1),
                decreases es@.len() - i,
            {
                proof {
                    assert(decreases_to!(*v => v->Object_0));
                    assert(decreases_to!(v->Object_0 => v->Object_0@));
                    assert(decreases_to!(v->Object_0@ => v->Object_0@[i as int]));
                    assert(decreases_to!(v->Object_0@[i as int] => v->Object_0@[i as int].1));
                }
                let k = es[i].0.clone();
                let c = copy_json(&es[i].1);
                out.push((k, c));
                i = i + 1;
            }
            proof {
                lemma_members_view(out@);
                lemma_members_view(es@);
                assert(members_view(out@) =~= members_view(es@));
            }
            Json::Object(out)
        },
    }
}

impl Json {
    /// `value.get(k)`.
    pub fn get(&self, k: &str) -> (r: Option<&Json>)
        ensures
            match r {
                Some(x) => get(self@, k@) == Some(x@),
                None => get(self@, k@) is None,
            },
    {
        match self {
            Json::Object(es) => {
                proof {
                    lemma_members_view(es@);
                }
                let ghost ms = members_view(es@);
                let mut i: usize = 0;
                assert(ms.subrange(0, ms.len() as int) =~= ms);
                assert(self@ == JsonV::Object(ms));
                while i < es.len()
                    invariant
                        i <= es@.len(),
                        ms == members_view(es@),
                        ms.len() == es@.len(),
                        self@ == JsonV::Object(ms),
                        forall|j: int|
                            0 <= j < es@.len() ==> #[trigger] ms[j] == (es@[j].0@, json_view(
                                es@[j].1,
                            )),
                        member(ms, k@) == member(ms.subrange(i as int, ms.len() as int), k@),
                    decreases es@.len() - i,
                {
                    let ghost t = ms.subrange(i as int, ms.len() as int);
                    assert(t[0] == ms[i as int]);
                    assert(t.drop_first() =~= ms.subrange(i + 1, ms.len() as int));
                    if text_eq(es[i].0.as_str(), k) {
                        return Some(&es[i].1);
                    }
                    i = i + 1;
                }
                None
            },
            _ => None,
        }
    }

    /// `value.as_str()`.
    pub fn as_str(&self) -> (r: Option<&str>)
        ensures
            match r {
                Some(s) => as_text(Some(self@)) == Some(s@),
                None => as_text(Some(self@)) is None,
            },
    {
        match self {
            Json::Str(s) => Some(s.as_str()),
            _ => None,
        }
    }

    /// `value.as_i64()`.
    pub fn as_i64(&self) -> (r: Option<i64>)
        ensures
            r == as_int(Some(self@)),
    {
        match self {
            Json::Number(n) => n.int,
            _ => None,
        }
    }

    /// `value.as_u64()`.
    pub fn as_u64(&self) -> (r: Option<u64>)
        ensures
            r == as_uint(Some(self@)),
    {
        match self {
            Json::Number(n) => n.uint,
            _ => None,
        }
    }

    /// `value.as_bool()`.
    pub fn as_bool(&self) -> (r: Option<bool>)
        ensures
            r == as_flag(Some(self@)),
    {
        match self {
            Json::Bool(b) => Some(*b),
            _ => None,
        }
    }

    /// `value.as_array()`.
    pub fn as_array(&self) -> (r: Option<&Vec<Json>>)
        ensures
            match r {
                Some(a) => as_items(Some(self@)) == Some(items_view(a@)),
                None => as_items(Some(self@)) is None,
            },
    {
        match self {
            Json::Array(a) => Some(a),
            _ => None,
        }
    }
}


/// The value of an optional reference to a [`Json`].
pub open spec fn opt_view(v: Option<&Json>) -> Option<JsonV> {
    match v {
        Some(x) => Some(x@),
        None => None,
    }
}

/// `v.and_then(|x| x.get(k))`.
pub fn get_opt<'a>(v: Option<&'a Json>, k: &str) -> (r: Option<&'a Json>)
    ensures
        opt_view(r) == get_in(opt_view(v), k@),
{
    match v {
        Some(x) => x.get(k),
        None => None,
    }
}

/// `v.and_then(|x| x.as_str())`.
pub fn text_of<'a>(v: Option<&'a Json>) -> (r: Option<&'a str>)
    ensures
        match r {
            Some(s) => as_text(opt_view(v)) == Some(s@),
            None => as_text(opt_view(v)) is None,
        },
{
    match v {
        Some(x) => x.as_str(),
        None => None,
    }
}

/// `v.and_then(|x| x.as_i64())`.
pub fn int_of(v: Option<&Json>) -> (r: Option<i64>)
    ensures
        r == as_int(opt_view(v)),
{
    match v {
        Some(x) => x.as_i64(),
        None => None,
    }
}

/// `v.and_then(|x| x.as_u64())`.
pub fn uint_of(v: Option<&Json>) -> (r: Option<u64>)
    ensures
        r == as_uint(opt_view(v)),
{
    match v {
        Some(x) => x.as_u64(),
        None => None,
    }
}

/// `v.and_then(|x| x.as_bool())`.
pub fn flag_of(v: Option<&Json>) -> (r: Option<bool>)
    ensures
        r == as_flag(opt_view(v)),
{
    match v {
        Some(x) => x.as_bool(),
        None => None,
    }
}

/// `v.and_then(|x| x.as_array())`.
pub fn items_of<'a>(v: Option<&'a Json>) -> (r: Option<&'a Vec<Json>>)
    ensures
        match r {
            Some(a) => as_items(opt_view(v)) == Some(items_view(a@)),
            None => as_items(opt_view(v)) is None,
        },
{
    match v {
        Some(x) => x.as_array(),
        None => None,
    }
}

/// A string's text, or `d` where there is none.
pub open spec fn text_or(v: Option<Seq<char>>, d: Seq<char>) -> Seq<char> {
    match v {
        Some(s) => s,
        None => d,
    }
}

/// `v.and_then(|x| x.as_str()).unwrap_or(d).to_string()`.
pub fn text_or_default(v: Option<&Json>, d: &str) -> (r: String)
    ensures
        r@ == text_or(as_text(opt_view(v)), d@),
{
    match text_of(v) {
        Some(s) => s.to_string(),
        None => d.to_string(),
    }
}

/// An optional string's text as an owned `String`.
pub fn owned_text(v: Option<&Json>) -> (r: Option<String>)
    ensures
        match r {
            Some(s) => as_text(opt_view(v)) == Some(s@),
            None => as_text(opt_view(v)) is None,
        },
{
    match text_of(v) {
        Some(s) => Some(s.to_string()),
        None => None,
    }
}

/// An integer, or 0 where there is none.
pub open spec fn int_or_zero(v: Option<JsonV>) -> i64 {
    match as_int(v) {
        Some(i) => i,
        None => 0,
    }
}

/// A flag, or `false` where there is none.
pub open spec fn flag_or_false(v: Option<JsonV>) -> bool {
    match as_flag(v) {
        Some(b) => b,
        None => false,
    }
}

} // verus!

verus! {

#[verifier::external_type_specification]
#[verifier::external_body]
pub struct ExJsonValue(serde_json::Value);

/// What `serde_json::from_str::<serde_json::Value>` makes of a text, in the
/// library's JSON model: the value, or the text of the parser's error.
pub uninterp spec fn json_parse(text: Seq<char>) -> Result<JsonV, Seq<char>>;

/// Parse JSON text: `serde_json::from_str` into a `serde_json::Value`,
/// converted variant for variant into [`Json`]; a failure carries the
/// parser's error message. Stated: the result is the named parse of `text`.
#[verifier::external_body]
pub fn parse_json(text: &str) -> (r: Result<Json, String>)
    ensures
        match r {
            Ok(j) => json_parse(text@) == Ok::<JsonV, Seq<char>>(j@),
            Err(e) => json_parse(text@) == Err::<JsonV, Seq<char>>(e@),
        },
{
    match serde_json::from_str::<serde_json::Value>(text) {
        Ok(v) => Ok(json_of(&v)),
        Err(e) => Err(e.to_string()),
    }
}

/// The conversion step of [`parse_json`]: a `serde_json::Value` as a
/// [`Json`], variant for variant (a number as its `as_i64`, `as_u64` and
/// text; object members in the parsed value's order). Nested values convert
/// by recursion, which is why this step stands apart.
#[verifier::external_body]
fn json_of(v: &serde_json::Value) -> Json {
    match v {
        Value::Null => Json::Null,
        Value::Bool(b) => Json::Bool(*b),
        Value::Number(n) => {
            Json::Number(JsonNumber { int: n.as_i64(), uint: n.as_u64(), text: n.to_string() })
        },
        Value::String(s) => Json::Str(s.clone()),
        Value::Array(a) => Json::Array(a.iter().map(json_of).collect()),
        Value::Object(m) => Json::Object(m.iter().map(|(k, x)| (k.clone(), json_of(x))).collect()),
    }
}

/// What `serde_json::to_string` writes for the JSON value `v` (taken as a
/// `serde_json::Value`: object members in key order, the last of repeated
/// keys kept).
pub uninterp spec fn json_write(v: JsonV) -> Seq<char>;

/// What `serde_json::to_string_pretty` writes for the JSON value `v` (taken
/// as for [`json_write`]).
pub uninterp spec fn json_pretty(v: JsonV) -> Seq<char>;

/// JSON text for `v` (`serde_json::to_string` on the value converted to a
/// `serde_json::Value`). Stated: the result is the named text of `v`.
/// Writing a `serde_json::Value` cannot fail (its map keys are strings).
#[verifier::external_body]
pub fn json_text(v: &Json) -> (r: String)
    ensures
        r@ == json_write(v@),
{
    serde_json::to_string(&value_of(v)).unwrap_or_default()
}

/// Pretty-printed JSON text for `v` (`serde_json::to_string_pretty`, as
/// [`json_text`]). Stated: the result is the named text of `v`.
#[verifier::external_body]
pub fn json_pretty_text(v: &Json) -> (r: String)
    ensures
        r@ == json_pretty(v@),
{
    serde_json::to_string_pretty(&value_of(v)).unwrap_or_default()
}

/// The conversion step of [`json_text`] and [`json_pretty_text`]: a [`Json`]
/// as a `serde_json::Value`, variant for variant (a number from its `i64`,
/// else its `u64`, else its text; members collected into serde's map).
/// Nested values convert by recursion, which is why this step stands apart.
#[verifier::external_body]
fn value_of(v: &Json) -> Value {
    match v {
        Json::Null => Value::Null,
        Json::Bool(b) => Value::Bool(*b),
        Json::Number(n) => match (n.int, n.uint) {
            (Some(i), _) => Value::from(i),
            (None, Some(u)) => Value::from(u),
            (None, None) => n.text.parse::<serde_json::Number>().map_or(Value::Null, Value::Number),
        },
        Json::Str(s) => Value::String(s.clone()),
        Json::Array(a) => Value::Array(a.iter().map(value_of).collect()),
        Json::Object(m) => Value::Object(m.iter().map(|(k, x)| (k.clone(), value_of(x))).collect()),
    }
}

/// `prefix` followed by `rest`.
pub fn prefixed(prefix: &str, rest: &str) -> (r: String)
    ensures
        r@ == prefix@ + rest@,
{
    let mut out: Vec<char> = Vec::new();
    push_str(&mut out, prefix);
    push_str(&mut out, rest);
    assert(out@ =~= prefix@ + rest@);
    string_of(out.as_slice())
}

/// A value typed by the user: the text as JSON where it parses, else the
/// text itself as a JSON string.
pub open spec fn js_value_of(text: Seq<char>) -> JsonV {
    match json_parse(text) {
        Ok(v) => v,
        Err(_) => JsonV::Str(text),
    }
}

/// Read a typed value as JSON, falling back to a string.
pub fn js_value(text: &str) -> (r: Json)
    ensures
        r@ == js_value_of(text@),
{
    match parse_json(text) {
        Ok(v) => v,
        Err(_) => Json::Str(string_of(chars_of(text).as_slice())),
    }
}

/// Index of the first member named `k` at or after `i`.
pub open spec fn key_from(ms: Seq<(Seq<char>, JsonV)>, k: Seq<char>, i: int) -> Option<int>
    decreases ms.len() - i,
{
    if i < 0 || i >= ms.len() {
        None
    } else if ms[i].0 == k {
        Some(i)
    } else {
        key_from(ms, k, i + 1)
    }
}

/// `members` with the member `k` set to `x` (`value[k] = x` on an object):
/// the first member named `k` gets the value, else the member is added.
pub open spec fn set_member(ms: Seq<(Seq<char>, JsonV)>, k: Seq<char>, x: JsonV) -> Seq<
    (Seq<char>, JsonV),
> {
    match key_from(ms, k, 0) {
        Some(j) => ms.update(j, (k, x)),
        None => ms.push((k, x)),
    }
}

/// Object members with member `k` set to `x`.
pub fn with_member(ms: &[(String, Json)], k: &str, x: Json) -> (r: Vec<(String, Json)>)
    ensures
        members_view(r@) == set_member(members_view(ms@), k@, x@),
{
    let ghost mv = members_view(ms@);
    proof {
        lemma_members_view(ms@);
    }
    let mut j: usize = 0;
    while j < ms.len() && !text_eq(ms[j].0.as_str(), k)
        invariant
            j <= ms@.len(),
            mv == members_view(ms@),
            mv.len() == ms@.len(),
            forall|i: int| 0 <= i < ms@.len() ==> #[trigger] mv[i] == (ms@[i].0@, json_view(ms@[i].1)),
            key_from(mv, k@, 0) == key_from(mv, k@, j as int),
        decreases ms@.len() - j,
    {
        j = j + 1;
    }
    let mut out: Vec<(String, Json)> = Vec::new();
    let mut i: usize = 0;
    let mut xo: Option<Json> = Some(x);
    let ghost xv = x@;
    while i < ms.len()
        invariant
            i <= ms@.len(),
            j <= ms@.len(),
            mv == members_view(ms@),
            mv.len() == ms@.len(),
            forall|l: int| 0 <= l < ms@.len() ==> #[trigger] mv[l] == (ms@[l].0@, json_view(ms@[l].1)),
            out@.len() == i,
            forall|l: int| 0 <= l < i ==> #[trigger] members_view(out@)[l] == (if l == j {
                (k@, xv)
            } else {
                mv[l]
            }),
            members_view(out@).len() == i,
            (xo matches Some(y) && y@ == xv) || j < i,
            j < ms@.len() ==> ms@[j as int].0@ == k@,
        decreases ms@.len() - i,
    {
        let ghost before = out@;
        let entry = if i == j {
            let y = match xo.take() {
                Some(y) => y,
                None => {
                    proof {
                        assert(false);
                    }
                    Json::Null
                },
            };
            (string_of(chars_of(k).as_slice()), y)
        } else {
            (ms[i].0.clone(), copy_json(&ms[i].1))
        };
        let ghost eg = entry;
        let ghost ev = (entry.0@, json_view(entry.1));
        assert(ev == (if i == j {
            (k@, xv)
        } else {
            mv[i as int]
        }));
        out.push(entry);
        proof {
            lemma_members_view(before);
            lemma_members_view(out@);
            assert forall|l: int| 0 <= l < i + 1 implies #[trigger] members_view(out@)[l] == (if l
                == j {
                (k@, xv)
            } else {
                mv[l]
            }) by {
                if l < i {
                    assert(out@[l] == before[l]);
                    assert(members_view(before)[l] == (if l == j {
                        (k@, xv)
                    } else {
                        mv[l]
                    }));
                } else {
                    assert(out@[l] == eg);
                }
            }
        }
        i = i + 1;
    }
    let ghost mid = out@;
    if j == ms.len() {
        match xo {
            Some(y) => {
                out.push((string_of(chars_of(k).as_slice()), y));
            },
            None => {},
        }
    }
    proof {
        lemma_members_view(mid);
        lemma_members_view(out@);
        if j == ms@.len() {
            assert forall|l: int| 0 <= l < mid.len() implies #[trigger] members_view(out@)[l] == mv[l] by {
                assert(out@[l] == mid[l]);
                assert(members_view(mid)[l] == mv[l]);
            }
        }
        let sm = set_member(mv, k@, xv);
        if j < ms@.len() {
            assert(key_from(mv, k@, j as int) == Some(j as int));
            assert(members_view(out@) =~= mv.update(j as int, (k@, xv)));
        } else {
            assert(key_from(mv, k@, j as int) is None);
            assert(members_view(out@) =~= mv.push((k@, xv)));
        }
    }
    out
}

} // verus!
