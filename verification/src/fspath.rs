//! File-system paths as text, joined as `std::path::Path::join` joins a
//! relative path on Unix.

use vstd::prelude::*;
use crate::text::{append_chars, chars_of, string_of};

verus! {

/// `base` joined with the relative path `rel`: a `/` goes between them
/// unless `base` is empty or already ends with one.
pub open spec fn joined(base: Seq<char>, rel: Seq<char>) -> Seq<char> {
    if base.len() == 0 || base.last() == '/' {
        base + rel
    } else {
        base + seq!['/'] + rel
    }
}

/// `Path::new(base).join(rel)` for a relative `rel`.
pub fn join_path(base: &str, rel: &str) -> (r: String)
    requires
        rel@.len() > 0,
        rel@[0] != '/',
    ensures
        r@ == joined(base@, rel@),
{
    let mut out = chars_of(base);
    if out.len() > 0 && out[out.len() - 1] != '/' {
        out.push('/');
    }
    append_chars(&mut out, chars_of(rel).as_slice());
    string_of(out.as_slice())
}

} // verus!
