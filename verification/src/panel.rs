//! Decisions of the game panel (the JavaScript-injection front end): which
//! snapshot is current, which values are frozen, what typed-in numbers mean,
//! which database rows a filter shows, and when a requested catalog is in.
//!
//! Reading the agent's files and the clock is the caller's part; these
//! functions take what was read.

use vstd::prelude::*;
use crate::agent::{agent_hash, agent_hash_text};
use crate::numeral::{parse_int, parse_int_spec};
use crate::text::{chars_of, contains, find, lower, string_of, text_eq, to_lower, trim, trimmed};

verus! {

/// Whether the agent running in the game, reporting the checksum `running`,
/// is another build than the current one (the game must restart to load
/// the installed plugin). An agent that reports none counts as another.
pub fn agent_outdated(running: Option<&str>) -> (r: bool)
    ensures
        r == match running {
            Some(h) => h@ != agent_hash_text(),
            None => true,
        },
{
    match running {
        Some(h) => {
            let cur = agent_hash();
            !text_eq(h, cur.as_str())
        },
        None => true,
    }
}

/// Whether `key` is among the freeze keys that the agent reports.
pub open spec fn frozen_in(freezes: Seq<String>, key: Seq<char>) -> bool {
    exists|i: int| 0 <= i < freezes.len() && (#[trigger] freezes[i])@ == key
}

/// Whether the agent holds a freeze under `key`.
pub fn is_frozen(freezes: &[String], key: &str) -> (r: bool)
    ensures
        r == frozen_in(freezes@, key@),
{
    let mut i: usize = 0;
    while i < freezes.len()
        invariant
            i <= freezes@.len(),
            forall|k: int| 0 <= k < i ==> (#[trigger] freezes@[k])@ != key@,
        decreases freezes@.len() - i,
    {
        if text_eq(freezes[i].as_str(), key) {
            return true;
        }
        i = i + 1;
    }
    false
}

/// The whole number typed into a field: the trimmed text as an `i64`
/// numeral (`str::parse::<i64>`), if it is one.
pub open spec fn typed_int(text: Seq<char>) -> Option<int> {
    parse_int_spec(trim(text), 10, i64::MIN as int, i64::MAX as int)
}

/// The whole number typed into a field, if the trimmed text is one.
pub fn int_entry(text: &str) -> (r: Option<i64>)
    ensures
        match r {
            Some(v) => typed_int(text@) == Some(v as int),
            None => typed_int(text@) is None,
        },
{
    let t = trimmed(chars_of(text).as_slice());
    match parse_int(t.as_slice(), 10, i64::MIN as i128, i64::MAX as i128) {
        Some(v) => Some(v as i64),
        None => None,
    }
}

/// The gold amount to hold when a freeze starts: the typed amount, else the
/// amount the game shows, else 0.
pub fn gold_to_freeze(text: &str, shown: Option<i64>) -> (r: i64)
    ensures
        r == match typed_int(text@) {
            Some(v) => v,
            None => match shown {
                Some(g) => g as int,
                None => 0,
            },
        },
{
    match int_entry(text) {
        Some(v) => v,
        None => match shown {
            Some(g) => g,
            None => 0,
        },
    }
}

/// The amount of the bulk "+N" button: the typed amount, else 10.
pub fn bulk_amount(text: &str) -> (r: i64)
    ensures
        r == match typed_int(text@) {
            Some(v) => v,
            None => 10,
        },
{
    match int_entry(text) {
        Some(v) => v,
        None => 10,
    }
}

/// The key of a custom freeze: the typed key, trimmed, or the trimmed
/// expression where no key was typed.
pub open spec fn custom_key(key_text: Seq<char>, expr_text: Seq<char>) -> Seq<char> {
    if trim(key_text).len() == 0 {
        trim(expr_text)
    } else {
        trim(key_text)
    }
}

/// The key under which a custom value is frozen.
pub fn freeze_key(key_text: &str, expr_text: &str) -> (r: String)
    ensures
        r@ == custom_key(key_text@, expr_text@),
{
    let k = trimmed(chars_of(key_text).as_slice());
    if k.len() == 0 {
        let e = trimmed(chars_of(expr_text).as_slice());
        string_of(e.as_slice())
    } else {
        string_of(k.as_slice())
    }
}

/// Whether the database lists a row named `name` under `filter`: the filter
/// is empty, or occurs in the name, both ASCII-lower-cased.
pub open spec fn row_shown(name: Seq<char>, filter: Seq<char>) -> bool {
    filter.len() == 0 || contains(lower(name), lower(filter))
}

/// Whether the database filter lets the row named `name` through.
pub fn name_shown(name: &str, filter: &str) -> (r: bool)
    ensures
        r == row_shown(name@, filter@),
{
    let f = to_lower(chars_of(filter).as_slice());
    if f.len() == 0 {
        return true;
    }
    let n = to_lower(chars_of(name).as_slice());
    find(n.as_slice(), f.as_slice()).is_some()
}

/// How long a catalog request may go unanswered, in milliseconds.
pub const CATALOG_PATIENCE_MS: u64 = 4000;

/// How old a snapshot may be, in milliseconds, while the game still counts
/// as running.
pub const SNAPSHOT_FRESH_MS: u64 = 3000;

/// What to do while waiting for a requested catalog.
#[derive(Copy, Clone, Debug, PartialEq, Eq, Structural)]
pub enum CatalogWait {
    /// The agent wrote a catalog at or after the request: read it, stop waiting.
    Take,
    /// Keep waiting.
    Wait,
    /// The game has not answered in time: stop waiting.
    GiveUp,
}

/// Whether the catalog request made at `requested_at` has been answered, by
/// a catalog stamped `written_at`, or waited on too long at `now` (all in
/// milliseconds; a clock that went back counts as no time passed).
pub open spec fn wait_step(requested_at: u64, written_at: Option<u64>, now: u64) -> CatalogWait {
    if written_at matches Some(ts) && ts >= requested_at {
        CatalogWait::Take
    } else if now > requested_at && now - requested_at > CATALOG_PATIENCE_MS {
        CatalogWait::GiveUp
    } else {
        CatalogWait::Wait
    }
}

/// The next step of waiting for a requested catalog.
pub fn catalog_wait(requested_at: u64, written_at: Option<u64>, now: u64) -> (r: CatalogWait)
    ensures
        r == wait_step(requested_at, written_at, now),
{
    let fresh = match written_at {
        Some(ts) => ts >= requested_at,
        None => false,
    };
    if fresh {
        CatalogWait::Take
    } else if now.saturating_sub(requested_at) > CATALOG_PATIENCE_MS {
        CatalogWait::GiveUp
    } else {
        CatalogWait::Wait
    }
}

/// Whether a snapshot stamped `ts` is left over from a game that is no
/// longer running at `now`: it has no stamp, or it is older than
/// [`SNAPSHOT_FRESH_MS`] (a clock that went back counts as no time passed).
pub fn snapshot_stale(ts: u64, now: u64) -> (r: bool)
    ensures
        r == (ts == 0 || (now > ts && now - ts > SNAPSHOT_FRESH_MS)),
{
    ts == 0 || now.saturating_sub(ts) > SNAPSHOT_FRESH_MS
}

/// The warning to show for a stopped or failing game: the captured error,
/// else `fallback`; none while the game runs without error.
pub fn trouble_note(stopped: bool, error: Option<&str>, fallback: &str) -> (r: Option<String>)
    ensures
        match r {
            Some(m) => (stopped || error is Some) && m@ == match error {
                Some(e) => e@,
                None => fallback@,
            },
            None => !stopped && error is None,
        },
{
    match error {
        Some(e) => Some(string_of(chars_of(e).as_slice())),
        None => if stopped {
            Some(string_of(chars_of(fallback).as_slice()))
        } else {
            None
        },
    }
}

/// The leading characters of a checksum shown beside "agent installed": its
/// first eight, or all of a shorter one.
pub fn short_hash(h: &str) -> (r: String)
    ensures
        r@ == if h@.len() <= 8 {
            h@
        } else {
            h@.take(8)
        },
{
    let cs = chars_of(h);
    if cs.len() <= 8 {
        string_of(cs.as_slice())
    } else {
        string_of(vstd::slice::slice_subrange(cs.as_slice(), 0, 8))
    }
}

} // verus!
