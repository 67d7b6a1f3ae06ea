//! Character-level text handling shared by the parsers: whitespace,
//! trimming, tokenizing, ASCII case folding, and decimal/hex numerals.
//!
//! Text is modelled as `Seq<char>` (the view of `str` and `String`).

use vstd::prelude::*;

verus! {

/// The characters of `s`, in order.
pub(crate) fn chars_of(s: &str) -> (r: Vec<char>)
    ensures
        r@ == s@,
{
    broadcast use vstd::string::axiom_spec_iter, vstd::string::next_postcondition;

    let mut it = s.chars();
    let mut out: Vec<char> = Vec::new();
    loop
        invariant
            vstd::std_specs::iter::IteratorSpec::obeys_prophetic_iter_laws(&it),
            vstd::std_specs::iter::IteratorSpec::decrease(&it) is Some,
            out@ + vstd::std_specs::iter::IteratorSpec::remaining(&it) == s@,
        ensures
            out@ == s@,
        decreases vstd::std_specs::iter::IteratorSpec::decrease(&it)->0,
    {
        match it.next() {
            Some(c) => {
                out.push(c);
            },
            None => {
                assert(out@ =~= s@);
                break;
            },
        }
    }
    out
}

/// A `String` made of exactly the characters `cs`.
#[verifier::external_body]
pub(crate) fn string_of(cs: &[char]) -> (r: String)
    ensures
        r@ == cs@,
{
    cs.iter().collect()
}

/// `char::is_whitespace`: the Unicode `White_Space` property.
pub open spec fn is_ws(c: char) -> bool {
    let u = c as u32;
    ||| 0x09 <= u <= 0x0D
    ||| u == 0x20
    ||| u == 0x85
    ||| u == 0xA0
    ||| u == 0x1680
    ||| 0x2000 <= u <= 0x200A
    ||| u == 0x2028
    ||| u == 0x2029
    ||| u == 0x202F
    ||| u == 0x205F
    ||| u == 0x3000
}

pub fn is_whitespace(c: char) -> (r: bool)
    ensures
        r == is_ws(c),
{
    let u = c as u32;
    (0x09 <= u && u <= 0x0D) || u == 0x20 || u == 0x85 || u == 0xA0 || u == 0x1680 || (0x2000
        <= u && u <= 0x200A) || u == 0x2028 || u == 0x2029 || u == 0x202F || u == 0x205F || u
        == 0x3000
}

/// `s` without its leading whitespace.
pub open spec fn trim_start(s: Seq<char>) -> Seq<char>
    decreases s.len(),
{
    if s.len() > 0 && is_ws(s[0]) {
        trim_start(s.drop_first())
    } else {
        s
    }
}

/// `s` without its trailing whitespace.
pub open spec fn trim_end(s: Seq<char>) -> Seq<char>
    decreases s.len(),
{
    if s.len() > 0 && is_ws(s.last()) {
        trim_end(s.drop_last())
    } else {
        s
    }
}

/// `str::trim`.
pub open spec fn trim(s: Seq<char>) -> Seq<char> {
    trim_end(trim_start(s))
}

proof fn lemma_trim_start_skip(s: Seq<char>, i: int)
    requires
        0 <= i <= s.len(),
        forall|k: int| 0 <= k < i ==> is_ws(#[trigger] s[k]),
    ensures
        trim_start(s) == trim_start(s.subrange(i, s.len() as int)),
    decreases i,
{
    if i > 0 {
        assert(s.drop_first().subrange(i - 1, s.drop_first().len() as int) =~= s.subrange(
            i,
            s.len() as int,
        ));
        lemma_trim_start_skip(s.drop_first(), i - 1);
    } else {
        assert(s.subrange(0, s.len() as int) =~= s);
    }
}

proof fn lemma_trim_end_skip(s: Seq<char>, j: int)
    requires
        0 <= j <= s.len(),
        forall|k: int| j <= k < s.len() ==> is_ws(#[trigger] s[k]),
    ensures
        trim_end(s) == trim_end(s.subrange(0, j)),
    decreases s.len() - j,
{
    if j < s.len() {
        assert(s.drop_last().subrange(0, j) =~= s.subrange(0, j));
        lemma_trim_end_skip(s.drop_last(), j);
    } else {
        assert(s.subrange(0, s.len() as int) =~= s);
    }
}

proof fn lemma_trim_start_clean(s: Seq<char>)
    ensures
        trim_start(s).len() == 0 || !is_ws(trim_start(s)[0]),
    decreases s.len(),
{
    if s.len() > 0 && is_ws(s[0]) {
        lemma_trim_start_clean(s.drop_first());
    }
}

proof fn lemma_trim_end_clean(s: Seq<char>)
    ensures
        trim_end(s).len() == 0 || !is_ws(trim_end(s).last()),
        trim_end(s).len() <= s.len(),
        trim_end(s) == s.subrange(0, trim_end(s).len() as int),
    decreases s.len(),
{
    if s.len() > 0 && is_ws(s.last()) {
        lemma_trim_end_clean(s.drop_last());
        let k = trim_end(s.drop_last()).len() as int;
        assert(s.drop_last().subrange(0, k) =~= s.subrange(0, k));
    } else {
        assert(s.subrange(0, s.len() as int) =~= s);
    }
}

/// Trimming twice is trimming once.
pub proof fn lemma_trim_idempotent(s: Seq<char>)
    ensures
        trim(trim(s)) == trim(s),
{
    let u = trim_start(s);
    lemma_trim_start_clean(s);
    lemma_trim_end_clean(u);
    let t = trim_end(u);
    if t.len() > 0 {
        assert(t[0] == u.subrange(0, t.len() as int)[0]);
    }
    assert(trim_start(t) == t);
    assert(trim_end(t) == t);
}

/// Bounds `(a, b)` such that `s[a..b]` is `s` trimmed.
pub fn trim_bounds(s: &[char]) -> (r: (usize, usize))
    ensures
        r.0 <= r.1 <= s@.len(),
        s@.subrange(r.0 as int, r.1 as int) == trim(s@),
{
    let n = s.len();
    let mut a: usize = 0;
    while a < n && is_whitespace(s[a])
        invariant
            a <= n,
            n == s@.len(),
            forall|k: int| 0 <= k < a ==> is_ws(#[trigger] s@[k]),
        decreases n - a,
    {
        a = a + 1;
    }
    let ghost rest = s@.subrange(a as int, n as int);
    proof {
        lemma_trim_start_skip(s@, a as int);
    }
    let mut b: usize = n;
    while b > a && is_whitespace(s[b - 1])
        invariant
            a <= b <= n,
            n == s@.len(),
            forall|k: int| b <= k < n ==> is_ws(#[trigger] s@[k]),
        decreases b,
    {
        b = b - 1;
    }
    proof {
        assert(a == n || !is_ws(s@[a as int]));
        assert(trim_start(rest) == rest);
        assert forall|k: int| (b - a) <= k < rest.len() implies is_ws(#[trigger] rest[k]) by {
            assert(rest[k] == s@[k + a]);
        }
        lemma_trim_end_skip(rest, b - a);
        assert(rest.subrange(0, b - a) =~= s@.subrange(a as int, b as int));
        let t = s@.subrange(a as int, b as int);
        if t.len() > 0 {
            assert(t.last() == s@[b - 1]);
        }
        assert(trim_end(t) == t);
    }
    (a, b)
}

/// `s.trim()` as characters.
pub fn trimmed(s: &[char]) -> (r: Vec<char>)
    ensures
        r@ == trim(s@),
{
    let (a, b) = trim_bounds(s);
    vstd::slice::slice_to_vec(vstd::slice::slice_subrange(s, a, b))
}

/// Index of the first `c` in `s`, or `s.len()` when there is none.
pub open spec fn index_of(s: Seq<char>, c: char) -> nat
    decreases s.len(),
{
    if s.len() == 0 || s[0] == c {
        0
    } else {
        1 + index_of(s.drop_first(), c)
    }
}

pub proof fn lemma_index_of(s: Seq<char>, c: char, i: int)
    requires
        0 <= i <= s.len(),
        forall|k: int| 0 <= k < i ==> #[trigger] s[k] != c,
        i == s.len() || s[i] == c,
    ensures
        index_of(s, c) == i,
    decreases i,
{
    if i > 0 {
        lemma_index_of(s.drop_first(), c, i - 1);
    }
}

pub proof fn lemma_index_of_bound(s: Seq<char>, c: char)
    ensures
        index_of(s, c) <= s.len(),
        index_of(s, c) < s.len() ==> s[index_of(s, c) as int] == c,
    decreases s.len(),
{
    if s.len() > 0 && s[0] != c {
        lemma_index_of_bound(s.drop_first(), c);
    }
}

/// Index of the first `c` in `s[i..]` (or `s.len()`), in absolute terms.
pub fn find_char(s: &[char], i: usize, c: char) -> (r: usize)
    requires
        i <= s@.len(),
    ensures
        i <= r <= s@.len(),
        r - i == index_of(s@.subrange(i as int, s@.len() as int), c),
{
    let mut j = i;
    while j < s.len() && s[j] != c
        invariant
            i <= j <= s@.len(),
            forall|k: int| i <= k < j ==> #[trigger] s@[k] != c,
        decreases s@.len() - j,
    {
        j = j + 1;
    }
    proof {
        let t = s@.subrange(i as int, s@.len() as int);
        assert forall|k: int| 0 <= k < j - i implies #[trigger] t[k] != c by {
            assert(t[k] == s@[k + i]);
        }
        if j < s@.len() {
            assert(t[j - i] == s@[j as int]);
        }
        lemma_index_of(t, c, j - i);
    }
    j
}

/// Length of the leading run of non-whitespace characters.
pub open spec fn word_len(s: Seq<char>) -> nat
    decreases s.len(),
{
    if s.len() == 0 || is_ws(s[0]) {
        0
    } else {
        1 + word_len(s.drop_first())
    }
}

/// `str::split_whitespace`: the maximal runs of non-whitespace characters.
pub open spec fn words(s: Seq<char>) -> Seq<Seq<char>>
    decreases s.len(),
{
    let t = trim_start(s);
    if t.len() == 0 {
        seq![]
    } else {
        let k = word_len(t);
        proof {
            lemma_trim_start_len(s);
            lemma_word_len_bound(t);
        }
        seq![t.subrange(0, k as int)] + words(t.subrange(k as int, t.len() as int))
    }
}

pub proof fn lemma_trim_start_len(s: Seq<char>)
    ensures
        trim_start(s).len() <= s.len(),
        trim_start(s).len() == 0 || !is_ws(trim_start(s)[0]),
        exists|i: int| 0 <= i <= s.len() && trim_start(s) == #[trigger] s.subrange(i, s.len() as int),
    decreases s.len(),
{
    if s.len() > 0 && is_ws(s[0]) {
        lemma_trim_start_len(s.drop_first());
        let i = choose|i: int| 0 <= i <= s.drop_first().len() && trim_start(s.drop_first()) == #[trigger] s.drop_first().subrange(i, s.drop_first().len() as int);
        assert(s.drop_first().subrange(i, s.drop_first().len() as int) =~= s.subrange(i + 1, s.len() as int));
    } else {
        assert(s.subrange(0, s.len() as int) =~= s);
    }
}

pub proof fn lemma_word_len_bound(s: Seq<char>)
    ensures
        word_len(s) <= s.len(),
        s.len() > 0 && !is_ws(s[0]) ==> word_len(s) >= 1,
    decreases s.len(),
{
    if s.len() > 0 && !is_ws(s[0]) {
        lemma_word_len_bound(s.drop_first());
    }
}

proof fn lemma_word_len(s: Seq<char>, i: int)
    requires
        0 <= i <= s.len(),
        forall|k: int| 0 <= k < i ==> !is_ws(#[trigger] s[k]),
        i == s.len() || is_ws(s[i]),
    ensures
        word_len(s) == i,
    decreases i,
{
    if i > 0 {
        lemma_word_len(s.drop_first(), i - 1);
    }
}

/// Index of the first non-whitespace character at or after `i` (or `s.len()`).
fn skip_ws(s: &[char], i: usize) -> (r: usize)
    requires
        i <= s@.len(),
    ensures
        i <= r <= s@.len(),
        r == s@.len() || !is_ws(s@[r as int]),
        trim_start(s@.subrange(i as int, s@.len() as int)) == s@.subrange(r as int, s@.len() as int),
{
    let mut j = i;
    while j < s.len() && is_whitespace(s[j])
        invariant
            i <= j <= s@.len(),
            forall|k: int| i <= k < j ==> is_ws(#[trigger] s@[k]),
        decreases s@.len() - j,
    {
        j = j + 1;
    }
    proof {
        let t = s@.subrange(i as int, s@.len() as int);
        assert forall|k: int| 0 <= k < j - i implies is_ws(#[trigger] t[k]) by {
            assert(t[k] == s@[k + i]);
        }
        lemma_trim_start_skip(t, j - i);
        assert(t.subrange(j - i, t.len() as int) =~= s@.subrange(j as int, s@.len() as int));
        let u = s@.subrange(j as int, s@.len() as int);
        if u.len() > 0 {
            assert(u[0] == s@[j as int]);
        }
    }
    j
}

/// Index just past the run of non-whitespace characters starting at `i`.
pub fn skip_word(s: &[char], i: usize) -> (r: usize)
    requires
        i <= s@.len(),
    ensures
        i <= r <= s@.len(),
        word_len(s@.subrange(i as int, s@.len() as int)) == r - i,
{
    let mut j = i;
    while j < s.len() && !is_whitespace(s[j])
        invariant
            i <= j <= s@.len(),
            forall|k: int| i <= k < j ==> !is_ws(#[trigger] s@[k]),
        decreases s@.len() - j,
    {
        j = j + 1;
    }
    proof {
        let t = s@.subrange(i as int, s@.len() as int);
        assert forall|k: int| 0 <= k < j - i implies !is_ws(#[trigger] t[k]) by {
            assert(t[k] == s@[k + i]);
        }
        if j < s@.len() {
            assert(t[j - i] == s@[j as int]);
        }
        lemma_word_len(t, j - i);
    }
    j
}

/// `s.split_whitespace()` collected.
pub fn split_words(s: &[char]) -> (r: Vec<Vec<char>>)
    ensures
        r@.len() == words(s@).len(),
        forall|k: int| 0 <= k < r@.len() ==> #[trigger] r@[k]@ == words(s@)[k],
{
    let mut out: Vec<Vec<char>> = Vec::new();
    let mut i: usize = 0;
    let n = s.len();
    let ghost acc: Seq<Seq<char>> = seq![];
    assert(s@.subrange(0, n as int) =~= s@);
    assert(acc + words(s@) =~= words(s@));
    while i < n
        invariant
            i <= n,
            n == s@.len(),
            out@.len() == acc.len(),
            forall|k: int| 0 <= k < out@.len() ==> #[trigger] out@[k]@ == acc[k],
            acc + words(s@.subrange(i as int, n as int)) == words(s@),
        decreases n - i,
    {
        let ghost before = s@.subrange(i as int, n as int);
        let a = skip_ws(s, i);
        if a == n {
            proof {
                assert(words(before) =~= seq![]);
                assert(s@.subrange(n as int, n as int) =~= Seq::<char>::empty());
                assert(trim_start(Seq::<char>::empty()) =~= Seq::<char>::empty());
                assert(words(s@.subrange(n as int, n as int)) =~= seq![]);
            }
            i = a;
        } else {
            let b = skip_word(s, a);
            let w = vstd::slice::slice_to_vec(vstd::slice::slice_subrange(s, a, b));
            proof {
                let t = s@.subrange(a as int, n as int);
                assert(trim_start(before) == t);
                assert(t.len() > 0);
                assert(t.subrange(0, (b - a) as int) =~= w@);
                assert(t.subrange((b - a) as int, t.len() as int) =~= s@.subrange(
                    b as int,
                    n as int,
                ));
                assert(words(before) == seq![w@] + words(s@.subrange(b as int, n as int)));
                assert(acc + words(before) =~= (acc.push(w@)) + words(
                    s@.subrange(b as int, n as int),
                ));
                acc = acc.push(w@);
            }
            out.push(w);
            i = b;
        }
    }
    proof {
        assert(s@.subrange(n as int, n as int) =~= Seq::<char>::empty());
        assert(trim_start(Seq::<char>::empty()) =~= Seq::<char>::empty());
        assert(words(Seq::<char>::empty()) =~= seq![]);
        assert(acc + seq![] =~= acc);
    }
    out
}

/// `char::to_ascii_lowercase`.
pub open spec fn lower_char(c: char) -> char {
    if 'A' <= c <= 'Z' {
        ((c as u32) + 32) as char
    } else {
        c
    }
}

/// `str::to_ascii_lowercase`.
pub open spec fn lower(s: Seq<char>) -> Seq<char> {
    s.map_values(|c: char| lower_char(c))
}

pub fn to_lower(s: &[char]) -> (r: Vec<char>)
    ensures
        r@ == lower(s@),
{
    let mut out: Vec<char> = Vec::new();
    let mut i: usize = 0;
    while i < s.len()
        invariant
            i <= s@.len(),
            out@ == lower(s@.subrange(0, i as int)),
        decreases s@.len() - i,
    {
        let c = s[i];
        let l = if 'A' <= c && c <= 'Z' {
            let u: u32 = c as u32 + 32;
            proof {
                assert(0x61 <= u <= 0x7A);
            }
            char_from_ascii(u as u8)
        } else {
            c
        };
        out.push(l);
        proof {
            assert(s@.subrange(0, i + 1) =~= s@.subrange(0, i as int).push(c));
        }
        i = i + 1;
        assert(out@ =~= lower(s@.subrange(0, i as int)));
    }
    assert(s@.subrange(0, s@.len() as int) =~= s@);
    out
}

/// The character whose code is the ASCII byte `b`.
pub fn char_from_ascii(b: u8) -> (c: char)
    requires
        b < 128,
    ensures
        c as u32 == b as u32,
{
    b as char
}

/// Whether `pre` is a prefix of `s`.
pub open spec fn has_prefix(s: Seq<char>, pre: Seq<char>) -> bool {
    pre.len() <= s.len() && s.subrange(0, pre.len() as int) == pre
}

/// Whether `pat` occurs in `s` (`str::contains`).
pub open spec fn occurs_at(s: Seq<char>, pat: Seq<char>, i: int) -> bool {
    0 <= i && i + pat.len() <= s.len() && s.subrange(i, i + pat.len()) == pat
}

pub open spec fn contains(s: Seq<char>, pat: Seq<char>) -> bool {
    exists|i: int| occurs_at(s, pat, i)
}

/// Whether `s[i..]` starts with `pat`.
pub fn matches_at(s: &[char], pat: &[char], i: usize) -> (r: bool)
    requires
        i <= s@.len(),
    ensures
        r == occurs_at(s@, pat@, i as int),
{
    if pat.len() > s.len() - i {
        return false;
    }
    let mut k: usize = 0;
    while k < pat.len()
        invariant
            k <= pat@.len(),
            i + pat@.len() <= s@.len(),
            s@.len() == s.len(),
            forall|j: int| 0 <= j < k ==> s@[i + j] == pat@[j],
        decreases pat@.len() - k,
    {
        if s[i + k] != pat[k] {
            proof {
                assert(s@.subrange(i as int, i + pat@.len())[k as int] != pat@[k as int]);
            }
            return false;
        }
        k = k + 1;
    }
    assert(s@.subrange(i as int, i + pat@.len()) =~= pat@);
    true
}

pub fn starts_with(s: &[char], pat: &[char]) -> (r: bool)
    ensures
        r == has_prefix(s@, pat@),
{
    matches_at(s, pat, 0)
}

/// Index of the first occurrence of `pat` in `s` (`str::find`).
pub fn find(s: &[char], pat: &[char]) -> (r: Option<usize>)
    ensures
        match r {
            Some(i) => occurs_at(s@, pat@, i as int) && forall|j: int|
                0 <= j < i ==> !occurs_at(s@, pat@, j),
            None => !contains(s@, pat@),
        },
{
    let n = s.len();
    let mut i: usize = 0;
    loop
        invariant
            i <= n,
            n == s@.len(),
            forall|j: int| 0 <= j < i ==> !occurs_at(s@, pat@, j),
        decreases n - i,
    {
        if matches_at(s, pat, i) {
            return Some(i);
        }
        if i == n {
            assert forall|j: int| !occurs_at(s@, pat@, j) by {
                if 0 <= j && j <= n {
                }
            }
            return None;
        }
        i = i + 1;
    }
}

/// Append `b` to `a`.
pub fn append_chars(a: &mut Vec<char>, b: &[char])
    ensures
        final(a)@ == old(a)@ + b@,
{
    let ghost pre = a@;
    let mut j: usize = 0;
    while j < b.len()
        invariant
            j <= b@.len(),
            a@ =~= pre + b@.subrange(0, j as int),
        decreases b@.len() - j,
    {
        a.push(b[j]);
        j = j + 1;
        assert(b@.subrange(0, j as int) =~= b@.subrange(0, j - 1).push(b@[j - 1]));
    }
    assert(b@.subrange(0, b@.len() as int) =~= b@);
}

/// Index of the first occurrence of `pat` in `s` at or after `i`.
pub open spec fn first_from(s: Seq<char>, pat: Seq<char>, i: int) -> Option<int>
    decreases s.len() + 1 - i,
{
    if i < 0 || i > s.len() {
        None
    } else if occurs_at(s, pat, i) {
        Some(i)
    } else {
        first_from(s, pat, i + 1)
    }
}

/// Index of the first occurrence of `pat` in `s` (`str::find`).
pub open spec fn first_index(s: Seq<char>, pat: Seq<char>) -> Option<int> {
    first_from(s, pat, 0)
}

pub proof fn lemma_first_from(s: Seq<char>, pat: Seq<char>, i: int, r: Option<int>)
    requires
        0 <= i <= s.len() + 1,
        forall|j: int| 0 <= j < i ==> !occurs_at(s, pat, j),
        match r {
            Some(k) => i <= k && occurs_at(s, pat, k) && forall|j: int|
                0 <= j < k ==> !occurs_at(s, pat, j),
            None => !contains(s, pat),
        },
    ensures
        first_from(s, pat, i) == r,
    decreases s.len() + 1 - i,
{
    if i <= s.len() {
        match r {
            Some(k) => {
                if k != i {
                    lemma_first_from(s, pat, i + 1, r);
                }
            },
            None => {
                assert(!occurs_at(s, pat, i));
                lemma_first_from(s, pat, i + 1, r);
            },
        }
    } else {
        match r {
            Some(k) => {
                assert(occurs_at(s, pat, k));
            },
            None => {},
        }
    }
}

pub proof fn lemma_first_from_occurs(s: Seq<char>, pat: Seq<char>, i: int)
    ensures
        match first_from(s, pat, i) {
            Some(k) => i <= k && occurs_at(s, pat, k),
            None => true,
        },
    decreases s.len() + 1 - i,
{
    if 0 <= i <= s.len() && !occurs_at(s, pat, i) {
        lemma_first_from_occurs(s, pat, i + 1);
    }
}

/// `find` stated through [`first_index`].
pub fn find_first(s: &[char], pat: &[char]) -> (r: Option<usize>)
    ensures
        match r {
            Some(i) => first_index(s@, pat@) == Some(i as int) && occurs_at(s@, pat@, i as int),
            None => first_index(s@, pat@) is None && !contains(s@, pat@),
        },
{
    let r = find(s, pat);
    proof {
        let g: Option<int> = match r {
            Some(i) => Some(i as int),
            None => None,
        };
        lemma_first_from(s@, pat@, 0, g);
    }
    r
}

/// Index of the last occurrence of `pat` in `s` below `i` (`str::rfind`
/// on `s[..]` when `i` is past the end).
pub open spec fn last_below(s: Seq<char>, pat: Seq<char>, i: int) -> Option<int>
    decreases i,
{
    if i <= 0 {
        None
    } else if occurs_at(s, pat, i - 1) {
        Some(i - 1)
    } else {
        last_below(s, pat, i - 1)
    }
}

/// Index of the last occurrence of `pat` in `s` (`str::rfind`).
pub open spec fn last_index(s: Seq<char>, pat: Seq<char>) -> Option<int> {
    last_below(s, pat, s.len() as int + 1)
}

/// `str::rfind`.
pub fn find_last(s: &[char], pat: &[char]) -> (r: Option<usize>)
    ensures
        match r {
            Some(i) => last_index(s@, pat@) == Some(i as int),
            None => last_index(s@, pat@) is None,
        },
{
    let n = s.len();
    let mut i: usize = n;
    if matches_at(s, pat, n) {
        return Some(n);
    }
    assert(last_index(s@, pat@) == last_below(s@, pat@, n as int));
    while i > 0
        invariant
            i <= n,
            n == s@.len(),
            last_index(s@, pat@) == last_below(s@, pat@, i as int),
        decreases i,
    {
        if matches_at(s, pat, i - 1) {
            return Some(i - 1);
        }
        i = i - 1;
    }
    None
}

pub proof fn lemma_last_below_bound(s: Seq<char>, pat: Seq<char>, i: int)
    ensures
        match last_below(s, pat, i) {
            Some(k) => 0 <= k < i && occurs_at(s, pat, k),
            None => true,
        },
    decreases i,
{
    if i > 0 && !occurs_at(s, pat, i - 1) {
        lemma_last_below_bound(s, pat, i - 1);
    }
}

pub proof fn lemma_last_index_bound(s: Seq<char>, pat: Seq<char>)
    ensures
        match last_index(s, pat) {
            Some(k) => 0 <= k <= s.len() && occurs_at(s, pat, k),
            None => true,
        },
{
    lemma_last_below_bound(s, pat, s.len() as int + 1);
}

/// `s` with every non-overlapping occurrence of `pat`, scanned from the
/// left, replaced by `with` (`str::replace` for a non-empty pattern).
pub open spec fn replaced(s: Seq<char>, pat: Seq<char>, with: Seq<char>) -> Seq<char>
    recommends
        pat.len() > 0,
    decreases s.len(),
{
    if s.len() == 0 || pat.len() == 0 {
        s
    } else if occurs_at(s, pat, 0) {
        with + replaced(s.subrange(pat.len() as int, s.len() as int), pat, with)
    } else {
        seq![s[0]] + replaced(s.drop_first(), pat, with)
    }
}

/// Replacing in `a + b` leaves `a` as it is where `a` never holds the
/// first character of `pat`.
pub proof fn lemma_replaced_skip(a: Seq<char>, b: Seq<char>, pat: Seq<char>, with: Seq<char>)
    requires
        pat.len() > 0,
        forall|k: int| 0 <= k < a.len() ==> a[k] != pat[0],
    ensures
        replaced(a + b, pat, with) == a + replaced(b, pat, with),
    decreases a.len(),
{
    if a.len() > 0 {
        let s = a + b;
        assert(s[0] == a[0]);
        if occurs_at(s, pat, 0) {
            assert(s.subrange(0, pat.len() as int)[0] == s[0]);
        }
        assert(s.drop_first() =~= a.drop_first() + b);
        lemma_replaced_skip(a.drop_first(), b, pat, with);
        assert(seq![s[0]] + (a.drop_first() + replaced(b, pat, with)) =~= a + replaced(
            b,
            pat,
            with,
        ));
    } else {
        assert(a + b =~= b);
        assert(a + replaced(b, pat, with) =~= replaced(b, pat, with));
    }
}

/// Replacing in a text that starts with `pat` puts `with` first.
pub proof fn lemma_replaced_lead(b: Seq<char>, pat: Seq<char>, with: Seq<char>)
    requires
        pat.len() > 0,
    ensures
        replaced(pat + b, pat, with) == with + replaced(b, pat, with),
{
    let s = pat + b;
    assert(s.subrange(0, pat.len() as int) =~= pat);
    assert(s.subrange(pat.len() as int, s.len() as int) =~= b);
}

/// Whether `c` is no character of `pat`.
pub open spec fn foreign(c: char, pat: Seq<char>) -> bool {
    forall|j: int| 0 <= j < pat.len() ==> pat[j] != c
}

proof fn lemma_replaced_prefix(t: Seq<char>, pat: Seq<char>, with: Seq<char>, n: int)
    requires
        pat.len() > 0,
        with.len() > 0,
        forall|i: int| 0 <= i < with.len() ==> foreign(#[trigger] with[i], pat),
        0 <= n <= replaced(t, pat, with).len(),
    ensures
        (n <= t.len() && replaced(t, pat, with).subrange(0, n) == t.subrange(0, n)) || exists|k: int|
            0 <= k < n && foreign(#[trigger] replaced(t, pat, with)[k], pat),
    decreases t.len(),
{
    let r = replaced(t, pat, with);
    if n == 0 {
        assert(r.subrange(0, 0) =~= t.subrange(0, 0));
    } else if t.len() == 0 {
    } else if occurs_at(t, pat, 0) {
        assert(r[0] == with[0]);
        assert(foreign(r[0], pat));
    } else {
        let t1 = t.drop_first();
        let r1 = replaced(t1, pat, with);
        assert(r == seq![t[0]] + r1);
        lemma_replaced_prefix(t1, pat, with, n - 1);
        if n - 1 <= t1.len() && r1.subrange(0, n - 1) == t1.subrange(0, n - 1) {
            assert forall|k: int| 0 <= k < n implies r[k] == t[k] by {
                if k > 0 {
                    assert(r1.subrange(0, n - 1)[k - 1] == t1.subrange(0, n - 1)[k - 1]);
                }
            }
            assert(r.subrange(0, n) =~= t.subrange(0, n));
        } else {
            let k = choose|k: int| 0 <= k < n - 1 && foreign(#[trigger] r1[k], pat);
            assert(r[k + 1] == r1[k]);
        }
    }
}

/// Replacing `pat` by a text that holds none of its characters leaves no
/// occurrence of `pat`.
pub proof fn lemma_replaced_clears(s: Seq<char>, pat: Seq<char>, with: Seq<char>)
    requires
        pat.len() > 0,
        with.len() > 0,
        forall|i: int| 0 <= i < with.len() ==> foreign(#[trigger] with[i], pat),
    ensures
        !contains(replaced(s, pat, with), pat),
    decreases s.len(),
{
    let r = replaced(s, pat, with);
    if s.len() == 0 {
        assert(!contains(r, pat)) by {
            assert forall|i: int| !occurs_at(r, pat, i) by {}
        }
    } else if occurs_at(s, pat, 0) {
        let rest = s.subrange(pat.len() as int, s.len() as int);
        let r1 = replaced(rest, pat, with);
        lemma_replaced_clears(rest, pat, with);
        assert(r == with + r1);
        assert forall|i: int| !occurs_at(r, pat, i) by {
            if occurs_at(r, pat, i) {
                if i < with.len() {
                    assert(r.subrange(i, i + pat.len())[0] == r[i]);
                    assert(r[i] == with[i]);
                    assert(foreign(with[i], pat));
                } else {
                    assert(r.subrange(i, i + pat.len()) =~= r1.subrange(
                        i - with.len(),
                        i - with.len() + pat.len(),
                    ));
                    assert(occurs_at(r1, pat, i - with.len()));
                }
            }
        }
    } else {
        let s1 = s.drop_first();
        let r1 = replaced(s1, pat, with);
        lemma_replaced_clears(s1, pat, with);
        assert(r == seq![s[0]] + r1);
        assert forall|i: int| !occurs_at(r, pat, i) by {
            if occurs_at(r, pat, i) {
                let m = pat.len() as int;
                if i >= 1 {
                    assert(r.subrange(i, i + m) =~= r1.subrange(i - 1, i - 1 + m));
                    assert(occurs_at(r1, pat, i - 1));
                } else {
                    lemma_replaced_prefix(s1, pat, with, m - 1);
                    if m - 1 <= s1.len() && r1.subrange(0, m - 1) == s1.subrange(0, m - 1) {
                        assert forall|k: int| 0 <= k < m implies r[k] == s[k] by {
                            if k > 0 {
                                assert(r1.subrange(0, m - 1)[k - 1] == s1.subrange(0, m - 1)[k - 1]);
                            }
                        }
                        assert(s.subrange(0, m) =~= r.subrange(0, m));
                    } else {
                        let k = choose|k: int| 0 <= k < m - 1 && foreign(#[trigger] r1[k], pat);
                        assert(r[k + 1] == r1[k]);
                        assert(r.subrange(0, m)[k + 1] == pat[k + 1]);
                    }
                }
            }
        }
    }
}

/// `s.replace(pat, with)` for a non-empty `pat`.
pub fn replace_all(s: &[char], pat: &[char], with: &[char]) -> (r: Vec<char>)
    requires
        pat@.len() > 0,
    ensures
        r@ == replaced(s@, pat@, with@),
{
    let n = s.len();
    let mut out: Vec<char> = Vec::new();
    let mut i: usize = 0;
    assert(s@.subrange(0, n as int) =~= s@);
    while i < n
        invariant
            i <= n,
            n == s@.len(),
            pat@.len() > 0,
            out@ + replaced(s@.subrange(i as int, n as int), pat@, with@) == replaced(
                s@,
                pat@,
                with@,
            ),
        decreases n - i,
    {
        let ghost t = s@.subrange(i as int, n as int);
        let ghost before = out@;
        if matches_at(s, pat, i) {
            proof {
                assert(occurs_at(t, pat@, 0)) by {
                    assert(t.subrange(0, pat@.len() as int) =~= s@.subrange(
                        i as int,
                        i + pat@.len(),
                    ));
                }
                assert(t.subrange(pat@.len() as int, t.len() as int) =~= s@.subrange(
                    i + pat@.len(),
                    n as int,
                ));
            }
            append_chars(&mut out, with);
            proof {
                assert(before + replaced(t, pat@, with@) =~= out@ + replaced(
                    s@.subrange(i + pat@.len(), n as int),
                    pat@,
                    with@,
                ));
            }
            i = i + pat.len();
        } else {
            proof {
                assert(!occurs_at(t, pat@, 0)) by {
                    if occurs_at(t, pat@, 0) {
                        assert(t.subrange(0, pat@.len() as int) =~= s@.subrange(
                            i as int,
                            i + pat@.len(),
                        ));
                    }
                }
                assert(t.drop_first() =~= s@.subrange(i + 1, n as int));
                assert(t[0] == s@[i as int]);
            }
            out.push(s[i]);
            proof {
                assert(before + replaced(t, pat@, with@) =~= out@ + replaced(
                    s@.subrange(i + 1, n as int),
                    pat@,
                    with@,
                ));
            }
            i = i + 1;
        }
    }
    proof {
        assert(s@.subrange(n as int, n as int) =~= Seq::<char>::empty());
        assert(out@ + Seq::<char>::empty() =~= out@);
    }
    out
}

/// The ASCII hexadecimal digits (`char::is_ascii_hexdigit`).
pub open spec fn is_hex(c: char) -> bool {
    ('0' <= c <= '9') || ('a' <= c <= 'f') || ('A' <= c <= 'F')
}

pub fn is_hex_char(c: char) -> (r: bool)
    ensures
        r == is_hex(c),
{
    ('0' <= c && c <= '9') || ('a' <= c && c <= 'f') || ('A' <= c && c <= 'F')
}

/// Whether `a` and `b` hold the same characters.
pub fn same_chars(a: &[char], b: &[char]) -> (r: bool)
    ensures
        r == (a@ == b@),
{
    if a.len() != b.len() {
        return false;
    }
    let mut k: usize = 0;
    while k < a.len()
        invariant
            k <= a@.len(),
            a@.len() == b@.len(),
            forall|j: int| 0 <= j < k ==> a@[j] == b@[j],
        decreases a@.len() - k,
    {
        if a[k] != b[k] {
            assert(a@[k as int] != b@[k as int]);
            return false;
        }
        k = k + 1;
    }
    assert(a@ =~= b@);
    true
}

/// Whether the texts `a` and `b` are equal.
pub fn text_eq(a: &str, b: &str) -> (r: bool)
    ensures
        r == (a@ == b@),
{
    same_chars(chars_of(a).as_slice(), chars_of(b).as_slice())
}

/// Append the characters of `s` to `a`.
pub fn push_str(a: &mut Vec<char>, s: &str)
    ensures
        final(a)@ == old(a)@ + s@,
{
    append_chars(a, chars_of(s).as_slice());
}

/// Lexicographic order of texts by character code (the order of `String`).
pub open spec fn text_lt(a: Seq<char>, b: Seq<char>) -> bool
    decreases a.len(),
{
    if a.len() == 0 {
        b.len() > 0
    } else if b.len() == 0 {
        false
    } else if a[0] != b[0] {
        a[0] < b[0]
    } else {
        text_lt(a.drop_first(), b.drop_first())
    }
}

/// No two texts are each below the other.
pub proof fn lemma_text_lt_asym(a: Seq<char>, b: Seq<char>)
    ensures
        text_lt(a, b) ==> !text_lt(b, a),
    decreases a.len(),
{
    if a.len() > 0 && b.len() > 0 && a[0] == b[0] {
        lemma_text_lt_asym(a.drop_first(), b.drop_first());
    }
}

/// `a < b` for texts.
pub fn text_less(a: &[char], b: &[char]) -> (r: bool)
    ensures
        r == text_lt(a@, b@),
{
    let mut k: usize = 0;
    assert(a@.subrange(0, a@.len() as int) =~= a@);
    assert(b@.subrange(0, b@.len() as int) =~= b@);
    while k < a.len() && k < b.len() && a[k] == b[k]
        invariant
            k <= a@.len(),
            k <= b@.len(),
            text_lt(a@, b@) == text_lt(a@.subrange(k as int, a@.len() as int), b@.subrange(
                k as int,
                b@.len() as int,
            )),
        decreases a@.len() - k,
    {
        proof {
            let x = a@.subrange(k as int, a@.len() as int);
            let y = b@.subrange(k as int, b@.len() as int);
            assert(x.drop_first() =~= a@.subrange(k + 1, a@.len() as int));
            assert(y.drop_first() =~= b@.subrange(k + 1, b@.len() as int));
            assert(x[0] == a@[k as int] && y[0] == b@[k as int]);
        }
        k = k + 1;
    }
    proof {
        assert(a@.subrange(0, a@.len() as int) =~= a@);
        assert(b@.subrange(0, b@.len() as int) =~= b@);
    }
    let ghost x = a@.subrange(k as int, a@.len() as int);
    let ghost y = b@.subrange(k as int, b@.len() as int);
    if k == a.len() {
        k < b.len()
    } else if k == b.len() {
        false
    } else {
        assert(x[0] == a@[k as int] && y[0] == b@[k as int]);
        a[k] < b[k]
    }
}

/// The characters `s` of a literal, as a vector.
pub(crate) fn lit(s: &str) -> (r: Vec<char>)
    ensures
        r@ == s@,
{
    chars_of(s)
}

} // verus!
