//! Running processes as the process picker shows them: labels, memory
//! sizes, Wine/Proton and Chromium-role detection, and the default choice.
//!
//! Reading `/proc` is the caller's part; this module turns what was read
//! into [`ProcInfo`] values and decides what to show and pick.

use vstd::prelude::*;
use crate::ieee::{f64_grid, grid_u64};
use crate::numeral::{parse_int, parse_int_spec, render, render_int, render_i64, render_u64};
use crate::text::{
    append_chars, chars_of, contains, find, has_prefix, lit, lower, split_words, starts_with,
    string_of, text_less, text_lt, to_lower, trim, trimmed, words, lemma_text_lt_asym,
};

verus! {

/// A running process, as shown in the process picker.
#[derive(Clone, Debug)]
pub struct ProcInfo {
    pub pid: i32,
    /// `comm` (short name, up to 15 characters).
    pub name: String,
    /// Full command line (arguments joined with spaces).
    pub cmdline: String,
    /// Resident set size in bytes.
    pub rss_bytes: u64,
    /// Looks like a Wine/Proton process (Steam Play games run this way).
    pub is_wine: bool,
    /// For multi-process Chromium/Electron/NW.js apps, the subprocess role
    /// from `--type=` (e.g. `"renderer"`), `Some("main")` for the parent of
    /// such an app, `None` otherwise. An RPG Maker MV/MZ game's data lives
    /// in the largest renderer.
    pub role: Option<String>,
}

pub struct ProcModel {
    pub pid: i32,
    pub name: Seq<char>,
    pub cmdline: Seq<char>,
    pub rss_bytes: u64,
    pub is_wine: bool,
    pub role: Option<Seq<char>>,
}

impl View for ProcInfo {
    type V = ProcModel;

    open spec fn view(&self) -> ProcModel {
        ProcModel {
            pid: self.pid,
            name: self.name@,
            cmdline: self.cmdline@,
            rss_bytes: self.rss_bytes,
            is_wine: self.is_wine,
            role: match &self.role {
                Some(r) => Some(r@),
                None => None,
            },
        }
    }
}

/// `s` right-aligned in a field of `width` characters (`{:>width}`).
pub open spec fn pad_left(s: Seq<char>, width: nat) -> Seq<char> {
    if s.len() >= width {
        s
    } else {
        Seq::new((width - s.len()) as nat, |i: int| ' ') + s
    }
}

pub fn pad_left_exec(s: &[char], width: usize) -> (r: Vec<char>)
    ensures
        r@ == pad_left(s@, width as nat),
{
    let mut out: Vec<char> = Vec::new();
    if s.len() < width {
        let k = width - s.len();
        let mut i: usize = 0;
        while i < k
            invariant
                i <= k,
                out@ =~= Seq::new(i as nat, |j: int| ' '),
            decreases k - i,
        {
            out.push(' ');
            i = i + 1;
        }
    }
    let ghost pre = out@;
    let mut j: usize = 0;
    while j < s.len()
        invariant
            j <= s@.len(),
            out@ =~= pre + s@.subrange(0, j as int),
        decreases s@.len() - j,
    {
        out.push(s[j]);
        j = j + 1;
        assert(s@.subrange(0, j as int) =~= s@.subrange(0, j - 1).push(s@[j - 1]));
    }
    assert(s@.subrange(0, s@.len() as int) =~= s@);
    proof {
        if s@.len() >= width {
            assert(pre =~= Seq::<char>::empty());
            assert(out@ =~= s@);
        }
    }
    out
}

/// `1024^u`.
pub open spec fn kib_pow(u: nat) -> nat
    decreases u,
{
    if u == 0 {
        1
    } else {
        1024 * kib_pow((u - 1) as nat)
    }
}

/// How many times the `f64` value `v` is divided by 1024 before it drops
/// below 1024 (at most 4, for TiB).
pub open spec fn unit_steps(v: nat, u: nat) -> nat
    decreases 4 - u,
{
    if u < 4 && v >= kib_pow(u + 1) {
        unit_steps(v, u + 1)
    } else {
        u
    }
}

pub open spec fn unit_name(u: nat) -> Seq<char> {
    if u == 1 {
        "KiB"@
    } else if u == 2 {
        "MiB"@
    } else if u == 3 {
        "GiB"@
    } else {
        "TiB"@
    }
}

/// `n / d` rounded to the nearest integer, ties to even.
pub open spec fn round_half_even(n: nat, d: nat) -> nat {
    let q = n / d;
    let r = n % d;
    if 2 * r > d || (2 * r == d && q % 2 == 1) {
        q + 1
    } else {
        q
    }
}

/// A byte count as a short human string, e.g. `"612.4 MiB"`: below 1 KiB the
/// exact count in bytes; otherwise the count (as an `f64`) in the largest
/// binary unit up to TiB that keeps it at least 1, to one decimal place.
pub open spec fn human_text(bytes: u64) -> Seq<char> {
    let v = f64_grid(bytes as nat);
    let u = unit_steps(v, 0);
    if u == 0 {
        render(bytes as nat, 10, false) + " B"@
    } else {
        let tenths = round_half_even(10 * v, kib_pow(u));
        render(tenths / 10, 10, false) + "."@ + render(tenths % 10, 10, false) + " "@ + unit_name(u)
    }
}

proof fn lemma_kib_pow_values()
    ensures
        kib_pow(1) == 0x400,
        kib_pow(2) == 0x10_0000,
        kib_pow(3) == 0x4000_0000,
        kib_pow(4) == 0x100_0000_0000,
        kib_pow(5) == 0x4_0000_0000_0000,
{
    reveal_with_fuel(kib_pow, 6);
}

/// Format a byte count as a short human string, e.g. `"612.4 MiB"`.
pub fn human_bytes(bytes: u64) -> (r: String)
    ensures
        r@ == human_text(bytes),
{
    proof {
        lemma_kib_pow_values();
    }
    let v: u128 = grid_u64(bytes);
    let mut u: usize = 0;
    let mut d: u128 = 1;
    while u < 4 && v >= d * 1024
        invariant
            u <= 4,
            d == kib_pow(u as nat),
            u == 0 ==> d == 1,
            u == 1 ==> d == 0x400,
            u == 2 ==> d == 0x10_0000,
            u == 3 ==> d == 0x4000_0000,
            u == 4 ==> d == 0x100_0000_0000,
            unit_steps(v as nat, 0) == unit_steps(v as nat, u as nat),
        decreases 4 - u,
    {
        proof {
            reveal_with_fuel(kib_pow, 6);
        }
        d = d * 1024;
        u = u + 1;
    }
    proof {
        reveal_with_fuel(kib_pow, 6);
    }
    let mut out: Vec<char>;
    if u == 0 {
        out = render_u64(bytes, 10, false);
        append_chars(&mut out, chars_of(" B").as_slice());
    } else {
        let n: u128 = 10 * v;
        let q = n / d;
        proof {
            assert(d >= 1024);
            vstd::arithmetic::div_mod::lemma_div_is_ordered_by_denominator(
                n as int,
                1024,
                d as int,
            );
            assert(q <= n / 1024);
        }
        let rem = n % d;
        let tenths: u128 = if 2 * rem > d || (2 * rem == d && q % 2 == 1) {
            q + 1
        } else {
            q
        };
        let whole = tenths / 10;
        let frac = tenths % 10;
        proof {
            assert(whole <= u64::MAX);
        }
        out = render_u64(whole as u64, 10, false);
        append_chars(&mut out, chars_of(".").as_slice());
        let f = render_u64(frac as u64, 10, false);
        append_chars(&mut out, f.as_slice());
        append_chars(&mut out, chars_of(" ").as_slice());
        let name = if u == 1 {
            "KiB"
        } else if u == 2 {
            "MiB"
        } else if u == 3 {
            "GiB"
        } else {
            "TiB"
        };
        append_chars(&mut out, chars_of(name).as_slice());
    }
    string_of(out.as_slice())
}

/// The picker's one-line label, e.g. `"  12345   612.4 MiB  Game.exe [proton]"`.
pub open spec fn label_text(p: ProcModel) -> Seq<char> {
    let detail = if p.cmdline.len() == 0 {
        p.name
    } else {
        p.cmdline
    };
    let tag = if p.is_wine {
        " [proton]"@
    } else {
        ""@
    };
    let role = match p.role {
        Some(r) => " <"@ + r + ">"@,
        None => ""@,
    };
    pad_left(render_int(p.pid as int), 7) + "  "@ + pad_left(human_text(p.rss_bytes), 10) + "  "@
        + detail + tag + role
}

impl ProcInfo {
    /// A single-line label for menus.
    pub fn label(&self) -> (r: String)
        ensures
            r@ == label_text(self@),
    {
        let mut out = pad_left_exec(render_i64(self.pid as i64).as_slice(), 7);
        append_chars(&mut out, chars_of("  ").as_slice());
        let hb = human_bytes(self.rss_bytes);
        let hbc = chars_of(hb.as_str());
        append_chars(&mut out, pad_left_exec(hbc.as_slice(), 10).as_slice());
        append_chars(&mut out, chars_of("  ").as_slice());
        let detail = if self.cmdline.as_str().is_empty() {
            chars_of(self.name.as_str())
        } else {
            chars_of(self.cmdline.as_str())
        };
        append_chars(&mut out, detail.as_slice());
        if self.is_wine {
            append_chars(&mut out, chars_of(" [proton]").as_slice());
        } else {
            append_chars(&mut out, chars_of("").as_slice());
        }
        match &self.role {
            Some(r) => {
                append_chars(&mut out, chars_of(" <").as_slice());
                append_chars(&mut out, chars_of(r.as_str()).as_slice());
                append_chars(&mut out, chars_of(">").as_slice());
                assert(out@ =~= label_text(self@));
            },
            None => {
                append_chars(&mut out, chars_of("").as_slice());
                assert(out@ =~= label_text(self@));
            },
        }
        string_of(out.as_slice())
    }
}


/// The value of the first `--type=<role>` argument with a non-empty role.
pub open spec fn type_arg(ws: Seq<Seq<char>>) -> Option<Seq<char>>
    decreases ws.len(),
{
    if ws.len() == 0 {
        None
    } else if has_prefix(ws[0], "--type="@) && ws[0].len() > 7 {
        Some(ws[0].subrange(7, ws[0].len() as int))
    } else {
        type_arg(ws.drop_first())
    }
}

/// Whether a command line launches a Chromium-based runtime (NW.js,
/// Chrome/Chromium, Electron), compared case-insensitively.
pub open spec fn chromium_runtime(c: Seq<char>) -> bool {
    let l = lower(c);
    ||| contains(l, "nw.exe"@)
    ||| contains(l, "nwjs"@)
    ||| contains(l, "chrome"@)
    ||| contains(l, "chromium"@)
    ||| contains(l, "electron"@)
}

/// The subprocess role of a Chromium/Electron/NW.js process: the value of
/// its `--type=` argument; `"main"` for the parent of such an app (no
/// `--type`, but a Chromium-based runtime on the command line); else none.
pub open spec fn role_of(c: Seq<char>) -> Option<Seq<char>> {
    match type_arg(words(c)) {
        Some(v) => Some(v),
        None => if chromium_runtime(c) {
            Some("main"@)
        } else {
            None
        },
    }
}

fn contains_lit(hay: &[char], pat: &str) -> (r: bool)
    ensures
        r == contains(hay@, pat@),
{
    let p = lit(pat);
    match find(hay, p.as_slice()) {
        Some(_) => true,
        None => false,
    }
}

/// Determine the subprocess role of a Chromium/Electron/NW.js process from
/// its command line.
pub fn detect_role(cmdline: &str) -> (r: Option<String>)
    ensures
        match r {
            Some(s) => role_of(cmdline@) == Some(s@),
            None => role_of(cmdline@) is None,
        },
{
    let cs = chars_of(cmdline);
    let ws = split_words(cs.as_slice());
    let pre = lit("--type=");
    proof {
        reveal_strlit("--type=");
    }
    let ghost all = words(cmdline@);
    assert(all.subrange(0, all.len() as int) =~= all);
    let mut i: usize = 0;
    while i < ws.len()
        invariant
            i <= ws@.len(),
            ws@.len() == all.len(),
            all == words(cmdline@),
            pre@ == "--type="@,
            forall|k: int| 0 <= k < ws@.len() ==> #[trigger] ws@[k]@ == all[k],
            type_arg(all) == type_arg(all.subrange(i as int, all.len() as int)),
        decreases ws@.len() - i,
    {
        let w = &ws[i];
        let ghost tail = all.subrange(i as int, all.len() as int);
        assert(tail[0] == w@);
        assert(tail.drop_first() =~= all.subrange(i + 1, all.len() as int));
        if starts_with(w.as_slice(), pre.as_slice()) && w.len() > 7 {
            let v = vstd::slice::slice_subrange(w.as_slice(), 7, w.len());
            return Some(string_of(v));
        }
        i = i + 1;
    }
    assert(all.subrange(i as int, all.len() as int) =~= Seq::<Seq<char>>::empty());
    let l = to_lower(cs.as_slice());
    if contains_lit(l.as_slice(), "nw.exe") || contains_lit(l.as_slice(), "nwjs")
        || contains_lit(l.as_slice(), "chrome") || contains_lit(l.as_slice(), "chromium")
        || contains_lit(l.as_slice(), "electron") {
        Some(string_of(lit("main").as_slice()))
    } else {
        None
    }
}

/// Whether the bytes of `s` from index `i` on begin with the ASCII text `p`.
pub open spec fn bytes_begin_with(s: Seq<u8>, i: int, p: Seq<char>) -> bool {
    &&& 0 <= i
    &&& i + p.len() <= s.len()
    &&& forall|k: int| 0 <= k < p.len() ==> s[i + k] as u32 == #[trigger] p[k] as u32
}

/// An environment entry (`KEY=value`) starting at byte `i` marks a
/// Wine/Proton (Steam Play) process.
pub open spec fn wine_marker_at(env: Seq<u8>, i: int) -> bool {
    ||| bytes_begin_with(env, i, "WINEPREFIX="@)
    ||| bytes_begin_with(env, i, "STEAM_COMPAT_DATA_PATH="@)
    ||| bytes_begin_with(env, i, "STEAM_COMPAT_CLIENT_INSTALL_PATH="@)
    ||| bytes_begin_with(env, i, "SteamAppId="@)
    ||| bytes_begin_with(env, i, "PROTON"@)
    ||| bytes_begin_with(env, i, "WINELOADERNOEXEC="@)
}

/// Byte `i` starts an entry of a NUL-separated environment block.
pub open spec fn entry_start(env: Seq<u8>, i: int) -> bool {
    0 <= i <= env.len() && (i == 0 || env[i - 1] == 0)
}

/// Some entry of the NUL-separated environment block marks Wine/Proton.
pub open spec fn wine_environ(env: Seq<u8>) -> bool {
    exists|i: int| entry_start(env, i) && #[trigger] wine_marker_at(env, i)
}

/// Heuristic for a Wine/Proton (Steam Play) process: a `.exe` in the command
/// line (any case), or else a Steam/Proton/Wine variable in its environment,
/// where the environment could be read.
pub open spec fn looks_like_wine(cmdline: Seq<char>, environ: Option<Seq<u8>>) -> bool {
    ||| contains(lower(cmdline), ".exe"@)
    ||| match environ {
        Some(env) => wine_environ(env),
        None => false,
    }
}

fn bytes_begin_with_exec(s: &[u8], i: usize, p: &str) -> (r: bool)
    requires
        i <= s@.len(),
    ensures
        r == bytes_begin_with(s@, i as int, p@),
{
    let pc = lit(p);
    if pc.len() > s.len() - i {
        return false;
    }
    let mut k: usize = 0;
    while k < pc.len()
        invariant
            k <= pc@.len(),
            pc@ == p@,
            s@.len() == s.len(),
            i + pc@.len() <= s@.len(),
            forall|j: int| 0 <= j < k ==> s@[i + j] as u32 == #[trigger] pc@[j] as u32,
        decreases pc@.len() - k,
    {
        if s[i + k] as u32 != pc[k] as u32 {
            return false;
        }
        k = k + 1;
    }
    true
}

/// Does this process belong to a Wine/Proton game? `environ` is the content
/// of its NUL-separated environment block, or `None` where it is unreadable.
pub fn detect_wine(cmdline: &str, environ: Option<&[u8]>) -> (r: bool)
    ensures
        r == looks_like_wine(
            cmdline@,
            match environ {
                Some(e) => Some(e@),
                None => None,
            },
        ),
{
    let l = to_lower(chars_of(cmdline).as_slice());
    if contains_lit(l.as_slice(), ".exe") {
        return true;
    }
    let env = match environ {
        Some(e) => e,
        None => {
            return false;
        },
    };
    let n = env.len();
    let mut i: usize = 0;
    loop
        invariant
            n == env@.len(),
            i <= n,
            environ == Some(env),
            !contains(lower(cmdline@), ".exe"@),
            forall|j: int| 0 <= j < i ==> !(entry_start(env@, j) && #[trigger] wine_marker_at(env@, j)),
        decreases n - i,
    {
        if i == 0 || env[i - 1] == 0 {
            if bytes_begin_with_exec(env, i, "WINEPREFIX=")
                || bytes_begin_with_exec(env, i, "STEAM_COMPAT_DATA_PATH=")
                || bytes_begin_with_exec(env, i, "STEAM_COMPAT_CLIENT_INSTALL_PATH=")
                || bytes_begin_with_exec(env, i, "SteamAppId=")
                || bytes_begin_with_exec(env, i, "PROTON")
                || bytes_begin_with_exec(env, i, "WINELOADERNOEXEC=") {
                assert(entry_start(env@, i as int) && wine_marker_at(env@, i as int));
                assert(wine_environ(env@));
                return true;
            }
        }
        if i == n {
            assert forall|j: int| entry_start(env@, j) implies !#[trigger] wine_marker_at(
                env@,
                j,
            ) by {
                assert(0 <= j <= i);
            }
            return false;
        }
        i = i + 1;
    }
}


/// Index of the first NUL byte of `s`, or its length where there is none.
pub open spec fn first_nul(s: Seq<u8>) -> nat
    decreases s.len(),
{
    if s.len() == 0 || s[0] == 0 {
        0
    } else {
        1 + first_nul(s.drop_first())
    }
}

proof fn lemma_first_nul(s: Seq<u8>, i: int)
    requires
        0 <= i <= s.len(),
        forall|k: int| 0 <= k < i ==> #[trigger] s[k] != 0,
        i == s.len() || s[i] == 0,
    ensures
        first_nul(s) == i,
    decreases i,
{
    if i > 0 {
        lemma_first_nul(s.drop_first(), i - 1);
    }
}

/// The non-empty NUL-separated fields of `raw` (the arguments recorded in
/// `/proc/<pid>/cmdline`), in order.
pub open spec fn nul_args(raw: Seq<u8>) -> Seq<Seq<u8>>
    decreases raw.len(),
{
    if raw.len() == 0 {
        seq![]
    } else {
        let k = first_nul(raw);
        let rest = if k < raw.len() {
            nul_args(raw.subrange(k as int + 1, raw.len() as int))
        } else {
            seq![]
        };
        if k == 0 {
            rest
        } else {
            seq![raw.subrange(0, k as int)] + rest
        }
    }
}

/// What `String::from_utf8_lossy` makes of `bytes`: their UTF-8 decoding,
/// each invalid sequence replaced by U+FFFD.
pub uninterp spec fn utf8_lossy(bytes: Seq<u8>) -> Seq<char>;

/// `String::from_utf8_lossy(bytes)`, owned. Stated: the result is the named
/// decoding of `bytes`, and for valid UTF-8 it is the plain decoding. Not
/// stated: how invalid sequences are replaced.
#[verifier::external_body]
pub(crate) fn lossy_string(bytes: &[u8]) -> (r: String)
    ensures
        r@ == utf8_lossy(bytes@),
        vstd::utf8::valid_utf8(bytes@) ==> r@ == vstd::utf8::decode_utf8(bytes@),
{
    String::from_utf8_lossy(bytes).into_owned()
}

/// `parts` joined with single spaces.
pub open spec fn join_spaced(parts: Seq<Seq<char>>) -> Seq<char>
    decreases parts.len(),
{
    if parts.len() == 0 {
        seq![]
    } else if parts.len() == 1 {
        parts[0]
    } else {
        join_spaced(parts.drop_last()) + seq![' '] + parts.last()
    }
}

/// `parts.join(" ")`.
pub fn join_args(parts: &[String]) -> (r: String)
    ensures
        r@ == join_spaced(parts@.map_values(|s: String| s@)),
{
    let ghost views = parts@.map_values(|s: String| s@);
    let mut out: Vec<char> = Vec::new();
    let mut k: usize = 0;
    while k < parts.len()
        invariant
            k <= parts@.len(),
            views == parts@.map_values(|s: String| s@),
            out@ == join_spaced(views.subrange(0, k as int)),
        decreases parts@.len() - k,
    {
        let ghost before = out@;
        if k > 0 {
            out.push(' ');
        }
        append_chars(&mut out, chars_of(parts[k].as_str()).as_slice());
        proof {
            let s = views.subrange(0, k + 1);
            assert(s.drop_last() =~= views.subrange(0, k as int));
            assert(s.last() == parts@[k as int]@);
            if k == 0 {
                assert(out@ =~= s[0]);
            } else {
                assert(out@ =~= join_spaced(s.drop_last()) + seq![' '] + s.last());
            }
        }
        k = k + 1;
    }
    assert(views.subrange(0, parts@.len() as int) =~= views);
    string_of(out.as_slice())
}

/// A process's command line as shown: its arguments (the non-empty
/// NUL-separated fields of `/proc/<pid>/cmdline`), each decoded as lossy
/// UTF-8, joined with spaces.
pub open spec fn cmdline_text(raw: Seq<u8>) -> Seq<char> {
    join_spaced(nul_args(raw).map_values(|a: Seq<u8>| utf8_lossy(a)))
}

/// The command line of a process from the raw bytes of its
/// `/proc/<pid>/cmdline`.
pub fn cmdline_of(raw: &[u8]) -> (r: String)
    ensures
        r@ == cmdline_text(raw@),
{
    let n = raw.len();
    let mut parts: Vec<String> = Vec::new();
    let ghost acc: Seq<Seq<u8>> = seq![];
    let mut i: usize = 0;
    assert(raw@.subrange(0, n as int) =~= raw@);
    assert(acc + nul_args(raw@) =~= nul_args(raw@));
    while i < n
        invariant
            i <= n,
            n == raw@.len(),
            parts@.len() == acc.len(),
            forall|k: int| 0 <= k < acc.len() ==> #[trigger] parts@[k]@ == utf8_lossy(acc[k]),
            acc + nul_args(raw@.subrange(i as int, n as int)) == nul_args(raw@),
        decreases n - i,
    {
        let ghost t = raw@.subrange(i as int, n as int);
        let mut j = i;
        while j < n && raw[j] != 0
            invariant
                i <= j <= n,
                n == raw@.len(),
                forall|k: int| i <= k < j ==> #[trigger] raw@[k] != 0,
            decreases n - j,
        {
            j = j + 1;
        }
        proof {
            assert forall|k: int| 0 <= k < j - i implies #[trigger] t[k] != 0 by {
                assert(t[k] == raw@[k + i]);
            }
            if j < n {
                assert(t[j - i] == raw@[j as int]);
            }
            lemma_first_nul(t, j - i);
            let rest = if j < n {
                nul_args(raw@.subrange(j + 1, n as int))
            } else {
                seq![]
            };
            if j < n {
                assert(t.subrange(j - i + 1, t.len() as int) =~= raw@.subrange(j + 1, n as int));
            }
            assert(t.subrange(0, j - i) =~= raw@.subrange(i as int, j as int));
            if j == i {
                assert(nul_args(t) == rest);
            } else {
                assert(nul_args(t) == seq![raw@.subrange(i as int, j as int)] + rest);
            }
        }
        if j > i {
            let piece = vstd::slice::slice_subrange(raw, i, j);
            parts.push(lossy_string(piece));
            proof {
                let a = raw@.subrange(i as int, j as int);
                assert(acc + nul_args(t) =~= acc.push(a) + (if j < n {
                    nul_args(raw@.subrange(j + 1, n as int))
                } else {
                    seq![]
                }));
                acc = acc.push(a);
            }
        }
        if j == n {
            proof {
                assert(acc + nul_args(raw@.subrange(n as int, n as int)) =~= acc);
            }
            i = n;
        } else {
            i = j + 1;
        }
    }
    proof {
        assert(raw@.subrange(n as int, n as int) =~= Seq::<u8>::empty());
        assert(acc =~= nul_args(raw@));
        assert(parts@.map_values(|s: String| s@) =~= nul_args(raw@).map_values(
            |a: Seq<u8>| utf8_lossy(a),
        ));
    }
    join_args(parts.as_slice())
}


/// Resident memory in bytes from the text of `/proc/<pid>/statm`: its second
/// field (resident pages) times the page size, the product taken modulo
/// 2^64; 0 where that field is missing or is not a `u64` numeral.
pub open spec fn rss_of(statm: Seq<char>, page_size: u64) -> u64 {
    let ws = words(statm);
    if ws.len() < 2 {
        0
    } else {
        match parse_int_spec(ws[1], 10, 0, u64::MAX as int) {
            Some(pages) => ((pages * page_size) % 0x1_0000_0000_0000_0000) as u64,
            None => 0,
        }
    }
}

/// Resident memory in bytes, from the text of `/proc/<pid>/statm`.
pub fn rss_from_statm(statm: &str, page_size: u64) -> (r: u64)
    ensures
        r == rss_of(statm@, page_size),
{
    let ws = split_words(chars_of(statm).as_slice());
    if ws.len() < 2 {
        return 0;
    }
    match parse_int(ws[1].as_slice(), 10, 0, u64::MAX as i128) {
        Some(pages) => {
            let p = pages as u64;
            p.wrapping_mul(page_size)
        },
        None => 0,
    }
}

/// Which processes a pick tier considers: Chromium renderers, then
/// Wine/Proton processes, then every process.
pub open spec fn in_tier(p: ProcModel, tier: nat) -> bool {
    if tier == 0 {
        p.role == Some("renderer"@)
    } else if tier == 1 {
        p.is_wine
    } else {
        true
    }
}

/// Index of the heaviest process of `ps` in `tier` (by resident memory; the
/// last one among equals, as `Iterator::max_by_key` picks).
pub open spec fn heaviest(ps: Seq<ProcModel>, tier: nat) -> Option<int>
    decreases ps.len(),
{
    if ps.len() == 0 {
        None
    } else {
        let rest = heaviest(ps.drop_last(), tier);
        if in_tier(ps.last(), tier) {
            match rest {
                Some(i) => if ps.last().rss_bytes >= ps[i].rss_bytes {
                    Some(ps.len() - 1)
                } else {
                    Some(i)
                },
                None => Some(ps.len() - 1),
            }
        } else {
            rest
        }
    }
}

/// The process a user most likely wants: the heaviest renderer of a
/// Chromium/NW.js game (RPG Maker MV/MZ), else the heaviest Wine/Proton
/// process, else the heaviest process; `None` for an empty list.
pub open spec fn best_pick(ps: Seq<ProcModel>) -> Option<i32> {
    match heaviest(ps, 0) {
        Some(i) => Some(ps[i].pid),
        None => match heaviest(ps, 1) {
            Some(i) => Some(ps[i].pid),
            None => match heaviest(ps, 2) {
                Some(i) => Some(ps[i].pid),
                None => None,
            },
        },
    }
}

proof fn lemma_heaviest_bound(ps: Seq<ProcModel>, tier: nat)
    ensures
        match heaviest(ps, tier) {
            Some(i) => 0 <= i < ps.len() && in_tier(ps[i], tier),
            None => forall|j: int| 0 <= j < ps.len() ==> !in_tier(#[trigger] ps[j], tier),
        },
    decreases ps.len(),
{
    if ps.len() > 0 {
        lemma_heaviest_bound(ps.drop_last(), tier);
        assert forall|j: int| 0 <= j < ps.len() - 1 implies ps.drop_last()[j] == ps[j] by {}
    }
}

fn is_renderer(p: &ProcInfo) -> (r: bool)
    ensures
        r == (p@.role == Some("renderer"@)),
{
    match &p.role {
        Some(r) => {
            let c = chars_of(r.as_str());
            let t = lit("renderer");
            if c.len() != t.len() {
                return false;
            }
            let mut k: usize = 0;
            while k < c.len()
                invariant
                    k <= c@.len(),
                    c@.len() == t@.len(),
                    c@ == r@,
                    p@.role == Some(r@),
                    t@ == "renderer"@,
                    forall|j: int| 0 <= j < k ==> c@[j] == t@[j],
                decreases c@.len() - k,
            {
                if c[k] != t[k] {
                    assert(c@[k as int] != t@[k as int]);
                    assert(r@ != "renderer"@);
                    return false;
                }
                k = k + 1;
            }
            assert(c@ =~= t@);
            true
        },
        None => false,
    }
}

fn heaviest_in(procs: &[ProcInfo], tier: u8) -> (r: Option<usize>)
    requires
        tier <= 2,
    ensures
        match r {
            Some(i) => heaviest(procs@.map_values(|p: ProcInfo| p@), tier as nat) == Some(i as int),
            None => heaviest(procs@.map_values(|p: ProcInfo| p@), tier as nat) is None,
        },
{
    let ghost ms = procs@.map_values(|p: ProcInfo| p@);
    let mut best: Option<usize> = None;
    let mut k: usize = 0;
    while k < procs.len()
        invariant
            k <= procs@.len(),
            tier <= 2,
            ms == procs@.map_values(|p: ProcInfo| p@),
            match best {
                Some(i) => heaviest(ms.subrange(0, k as int), tier as nat) == Some(i as int)
                    && i < k,
                None => heaviest(ms.subrange(0, k as int), tier as nat) is None,
            },
        decreases procs@.len() - k,
    {
        let p = &procs[k];
        let eligible = if tier == 0 {
            is_renderer(p)
        } else if tier == 1 {
            p.is_wine
        } else {
            true
        };
        proof {
            let s = ms.subrange(0, k + 1);
            assert(s.drop_last() =~= ms.subrange(0, k as int));
            assert(s.last() == p@);
            assert(eligible == in_tier(p@, tier as nat));
            match best {
                Some(i) => {
                    assert(s[i as int] == procs@[i as int]@);
                },
                None => {},
            }
        }
        if eligible {
            match best {
                Some(i) => {
                    if p.rss_bytes >= procs[i].rss_bytes {
                        best = Some(k);
                    }
                },
                None => {
                    best = Some(k);
                },
            }
        }
        k = k + 1;
    }
    assert(ms.subrange(0, procs@.len() as int) =~= ms);
    best
}

proof fn lemma_heaviest_max(ps: Seq<ProcModel>, tier: nat)
    ensures
        heaviest(ps, tier) matches Some(i) ==> (forall|j: int|
            0 <= j < ps.len() && in_tier(#[trigger] ps[j], tier) ==> ps[j].rss_bytes
                <= ps[i].rss_bytes) && (forall|j: int|
            i < j < ps.len() && in_tier(#[trigger] ps[j], tier) ==> ps[j].rss_bytes
                < ps[i].rss_bytes),
    decreases ps.len(),
{
    if ps.len() > 0 {
        let q = ps.drop_last();
        lemma_heaviest_max(q, tier);
        lemma_heaviest_bound(q, tier);
        assert forall|j: int| 0 <= j < q.len() implies q[j] == ps[j] by {}
    }
}

/// The processes a pick draws from: the Chromium renderers if there are
/// any, else the Wine/Proton processes if there are any, else all.
pub open spec fn pick_pool(ps: Seq<ProcModel>, p: ProcModel) -> bool {
    if exists|j: int| 0 <= j < ps.len() && (#[trigger] ps[j]).role == Some("renderer"@) {
        p.role == Some("renderer"@)
    } else if exists|j: int| 0 <= j < ps.len() && (#[trigger] ps[j]).is_wine {
        p.is_wine
    } else {
        true
    }
}

/// Whether `ps[i]` is the heaviest process of the pool (see [`pick_pool`]):
/// in it, no member holds more resident memory, and none after it as much.
pub open spec fn heaviest_of_pool(ps: Seq<ProcModel>, i: int) -> bool {
    &&& 0 <= i < ps.len()
    &&& pick_pool(ps, ps[i])
    &&& forall|j: int|
        0 <= j < ps.len() && pick_pool(ps, #[trigger] ps[j]) ==> ps[j].rss_bytes <= ps[i].rss_bytes
    &&& forall|j: int|
        i < j < ps.len() && pick_pool(ps, #[trigger] ps[j]) ==> ps[j].rss_bytes < ps[i].rss_bytes
}

/// The pick is the process with the most resident memory among the
/// renderers if there are any, else among the Wine/Proton processes if
/// there are any, else among all (the last of equals); there is a pick
/// exactly when there are processes.
pub proof fn law_best_pick_heaviest(ps: Seq<ProcModel>)
    ensures
        best_pick(ps) is None <==> ps.len() == 0,
        best_pick(ps) matches Some(pid) ==> exists|i: int|
            #[trigger] heaviest_of_pool(ps, i) && ps[i].pid == pid,
{
    lemma_heaviest_bound(ps, 0);
    lemma_heaviest_bound(ps, 1);
    lemma_heaviest_bound(ps, 2);
    lemma_heaviest_max(ps, 0);
    lemma_heaviest_max(ps, 1);
    lemma_heaviest_max(ps, 2);
    let rend = exists|j: int| 0 <= j < ps.len() && (#[trigger] ps[j]).role == Some("renderer"@);
    let wine = exists|j: int| 0 <= j < ps.len() && (#[trigger] ps[j]).is_wine;
    let t: nat = if rend {
        0
    } else if wine {
        1
    } else {
        2
    };
    assert forall|p: ProcModel| pick_pool(ps, p) == in_tier(p, t) by {}
    if ps.len() > 0 {
        assert(in_tier(ps[0], 2));
        if rend {
            let j = choose|j: int| 0 <= j < ps.len() && (#[trigger] ps[j]).role == Some("renderer"@);
            assert(in_tier(ps[j], 0));
        } else if wine {
            let j = choose|j: int| 0 <= j < ps.len() && (#[trigger] ps[j]).is_wine;
            assert(in_tier(ps[j], 1));
        }
        let i = heaviest(ps, t).unwrap();
        assert(heaviest_of_pool(ps, i));
    }
}

/// Best guess at the process a user wants to attach to.
pub fn pick_best_process(procs: &[ProcInfo]) -> (r: Option<i32>)
    ensures
        r == best_pick(procs@.map_values(|p: ProcInfo| p@)),
{
    let ghost ms = procs@.map_values(|p: ProcInfo| p@);
    proof {
        lemma_heaviest_bound(ms, 0);
        lemma_heaviest_bound(ms, 1);
        lemma_heaviest_bound(ms, 2);
    }
    match heaviest_in(procs, 0) {
        Some(i) => Some(procs[i].pid),
        None => match heaviest_in(procs, 1) {
            Some(i) => Some(procs[i].pid),
            None => match heaviest_in(procs, 2) {
                Some(i) => Some(procs[i].pid),
                None => None,
            },
        },
    }
}


/// Whether the `ps [filter]` listing shows `p`: the filter, trimmed and
/// lower-cased, is empty or occurs in the lower-cased name or command line.
pub open spec fn listed(p: ProcModel, filter: Seq<char>) -> bool {
    let f = lower(trim(filter));
    f.len() == 0 || contains(lower(p.name), f) || contains(lower(p.cmdline), f)
}

pub fn matches_filter(p: &ProcInfo, filter: &str) -> (r: bool)
    ensures
        r == listed(p@, filter@),
{
    let f = to_lower(trimmed(chars_of(filter).as_slice()).as_slice());
    if f.len() == 0 {
        return true;
    }
    let name = to_lower(chars_of(p.name.as_str()).as_slice());
    if find(name.as_slice(), f.as_slice()).is_some() {
        return true;
    }
    let cmd = to_lower(chars_of(p.cmdline.as_str()).as_slice());
    find(cmd.as_slice(), f.as_slice()).is_some()
}

/// Whether the process picker shows `p` for a filter already lower-cased:
/// a Wine/Proton process where only those are wanted, and the filter empty
/// or found in the lower-cased name or command line, or in the role.
pub open spec fn picked(p: ProcModel, filter: Seq<char>, wine_only: bool) -> bool {
    &&& !wine_only || p.is_wine
    &&& filter.len() == 0 || contains(lower(p.name), filter) || contains(lower(p.cmdline), filter)
        || match p.role {
        Some(r) => contains(r, filter),
        None => false,
    }
}

pub fn picker_shows(p: &ProcInfo, filter: &str, wine_only: bool) -> (r: bool)
    ensures
        r == picked(p@, filter@, wine_only),
{
    if wine_only && !p.is_wine {
        return false;
    }
    let f = chars_of(filter);
    if f.len() == 0 {
        return true;
    }
    let name = to_lower(chars_of(p.name.as_str()).as_slice());
    if find(name.as_slice(), f.as_slice()).is_some() {
        return true;
    }
    let cmd = to_lower(chars_of(p.cmdline.as_str()).as_slice());
    if find(cmd.as_slice(), f.as_slice()).is_some() {
        return true;
    }
    match &p.role {
        Some(r) => find(chars_of(r.as_str()).as_slice(), f.as_slice()).is_some(),
        None => false,
    }
}

/// Column used to order a process list.
#[derive(Copy, Clone, Debug, PartialEq, Eq, Structural)]
pub enum ProcSort {
    /// Heaviest first.
    Memory,
    /// Lowest pid first.
    Pid,
    /// By lower-cased name.
    Name,
}

impl Default for ProcSort {
    /// The picker starts sorted by memory.
    fn default() -> (s: Self)
        ensures
            s == ProcSort::Memory,
    {
        ProcSort::Memory
    }
}

/// Whether `a` goes strictly before `b` in the order `s`.
pub open spec fn goes_before(a: ProcModel, b: ProcModel, s: ProcSort) -> bool {
    match s {
        ProcSort::Memory => a.rss_bytes > b.rss_bytes,
        ProcSort::Pid => a.pid < b.pid,
        ProcSort::Name => text_lt(lower(a.name), lower(b.name)),
    }
}

/// `x` inserted into `ps` after every process it does not go before.
pub open spec fn insert_proc(ps: Seq<ProcModel>, x: ProcModel, s: ProcSort) -> Seq<ProcModel>
    decreases ps.len(),
{
    if ps.len() == 0 {
        seq![x]
    } else if goes_before(x, ps.last(), s) {
        insert_proc(ps.drop_last(), x, s).push(ps.last())
    } else {
        ps.push(x)
    }
}

/// `ps` stably sorted in the order `s` (processes that neither goes before
/// the other keep their order).
pub open spec fn sorted_procs(ps: Seq<ProcModel>, s: ProcSort) -> Seq<ProcModel>
    decreases ps.len(),
{
    if ps.len() == 0 {
        seq![]
    } else {
        insert_proc(sorted_procs(ps.drop_last(), s), ps.last(), s)
    }
}

proof fn lemma_insert_proc_at(ps: Seq<ProcModel>, x: ProcModel, s: ProcSort, j: int)
    requires
        0 <= j <= ps.len(),
        forall|k: int| j <= k < ps.len() ==> goes_before(x, #[trigger] ps[k], s),
        j == 0 || !goes_before(x, ps[j - 1], s),
    ensures
        insert_proc(ps, x, s) == ps.subrange(0, j).push(x) + ps.subrange(j, ps.len() as int),
    decreases ps.len() - j,
{
    if j == ps.len() {
        assert(ps.subrange(0, j) =~= ps);
        assert(ps.subrange(0, j).push(x) + ps.subrange(j, ps.len() as int) =~= ps.push(x));
    } else {
        let t = ps.drop_last();
        assert(goes_before(x, ps.last(), s));
        assert forall|k: int| j <= k < t.len() implies goes_before(x, #[trigger] t[k], s) by {
            assert(t[k] == ps[k]);
        }
        if j > 0 {
            assert(t[j - 1] == ps[j - 1]);
        }
        lemma_insert_proc_at(t, x, s, j);
        assert(t.subrange(0, j) =~= ps.subrange(0, j));
        assert(t.subrange(0, j).push(x) + t.subrange(j, t.len() as int) + seq![ps.last()]
            =~= ps.subrange(0, j).push(x) + ps.subrange(j, ps.len() as int));
    }
}

/// No process comes right after one that it goes before.
pub open spec fn in_order(ps: Seq<ProcModel>, s: ProcSort) -> bool {
    forall|k: int, m: int|
        0 <= k && m == k + 1 && m < ps.len() ==> !goes_before(#[trigger] ps[m], #[trigger] ps[k], s)
}

proof fn lemma_goes_before_asym(a: ProcModel, b: ProcModel, s: ProcSort)
    ensures
        goes_before(a, b, s) ==> !goes_before(b, a, s),
{
    if s == ProcSort::Name {
        lemma_text_lt_asym(lower(a.name), lower(b.name));
    }
}

proof fn lemma_insert_proc_keeps(ps: Seq<ProcModel>, x: ProcModel, s: ProcSort)
    ensures
        insert_proc(ps, x, s).to_multiset() == ps.to_multiset().insert(x),
        insert_proc(ps, x, s).len() == ps.len() + 1,
        in_order(ps, s) ==> in_order(insert_proc(ps, x, s), s),
    decreases ps.len(),
{
    broadcast use vstd::seq_lib::group_to_multiset_ensures, vstd::multiset::group_multiset_axioms;

    let r = insert_proc(ps, x, s);
    if ps.len() == 0 {
        assert(r =~= Seq::<ProcModel>::empty().push(x));
        assert(ps =~= Seq::<ProcModel>::empty());
    } else if goes_before(x, ps.last(), s) {
        let t = ps.drop_last();
        let y = ps.last();
        let q = insert_proc(t, x, s);
        lemma_insert_proc_keeps(t, x, s);
        assert(ps =~= t.push(y));
        assert(r.to_multiset() =~= ps.to_multiset().insert(x));
        if in_order(ps, s) {
            assert forall|k: int, m: int| 0 <= k && m == k + 1 && m < t.len() implies !goes_before(
                #[trigger] t[m],
                #[trigger] t[k],
                s,
            ) by {
                assert(t[m] == ps[m] && t[k] == ps[k]);
            }
            lemma_goes_before_asym(x, y, s);
            // The last of `q` is `x` or the last of `t`; neither goes after `y`.
            if t.len() > 0 && goes_before(x, t.last(), s) {
                assert(q.last() == t.last());
                assert(!goes_before(ps[t.len() as int], ps[t.len() - 1], s));
            } else {
                assert(q.last() == x);
            }
            assert forall|k: int, m: int| 0 <= k && m == k + 1 && m < r.len() implies !goes_before(
                #[trigger] r[m],
                #[trigger] r[k],
                s,
            ) by {
                if m < q.len() {
                    assert(r[m] == q[m] && r[k] == q[k]);
                } else {
                    assert(r[m] == y && r[k] == q.last());
                }
            }
        }
    } else {
        assert(r == ps.push(x));
        if in_order(ps, s) {
            assert forall|k: int, m: int| 0 <= k && m == k + 1 && m < r.len() implies !goes_before(
                #[trigger] r[m],
                #[trigger] r[k],
                s,
            ) by {
                if m < ps.len() {
                    assert(r[m] == ps[m] && r[k] == ps[k]);
                } else {
                    assert(r[m] == x && r[k] == ps.last());
                }
            }
        }
    }
}

/// Sorting the process list by any column keeps every process, each as
/// often as before, and puts no process right after one that it goes
/// before.
pub proof fn law_sort_procs_orders(ps: Seq<ProcModel>, s: ProcSort)
    ensures
        sorted_procs(ps, s).to_multiset() == ps.to_multiset(),
        sorted_procs(ps, s).len() == ps.len(),
        in_order(sorted_procs(ps, s), s),
    decreases ps.len(),
{
    broadcast use vstd::seq_lib::group_to_multiset_ensures, vstd::multiset::group_multiset_axioms;

    if ps.len() == 0 {
        assert(sorted_procs(ps, s) =~= Seq::<ProcModel>::empty());
        assert(ps =~= Seq::<ProcModel>::empty());
    } else {
        let t = ps.drop_last();
        law_sort_procs_orders(t, s);
        lemma_insert_proc_keeps(sorted_procs(t, s), ps.last(), s);
        assert(ps =~= t.push(ps.last()));
    }
}

fn copy_proc(p: &ProcInfo) -> (r: ProcInfo)
    ensures
        r@ == p@,
{
    ProcInfo {
        pid: p.pid,
        name: p.name.clone(),
        cmdline: p.cmdline.clone(),
        rss_bytes: p.rss_bytes,
        is_wine: p.is_wine,
        role: match &p.role {
            Some(r) => Some(r.clone()),
            None => None,
        },
    }
}

fn before_exec(a: &ProcInfo, b: &ProcInfo, s: ProcSort) -> (r: bool)
    ensures
        r == goes_before(a@, b@, s),
{
    match s {
        ProcSort::Memory => a.rss_bytes > b.rss_bytes,
        ProcSort::Pid => a.pid < b.pid,
        ProcSort::Name => text_less(
            to_lower(chars_of(a.name.as_str()).as_slice()).as_slice(),
            to_lower(chars_of(b.name.as_str()).as_slice()).as_slice(),
        ),
    }
}

pub open spec fn procs_view(ps: Seq<ProcInfo>) -> Seq<ProcModel> {
    ps.map_values(|p: ProcInfo| p@)
}

/// `procs` stably sorted in the order `s`.
pub fn sort_procs(procs: &[ProcInfo], s: ProcSort) -> (r: Vec<ProcInfo>)
    ensures
        procs_view(r@) == sorted_procs(procs_view(procs@), s),
{
    let ghost ks = procs_view(procs@);
    let mut out: Vec<ProcInfo> = Vec::new();
    let mut i: usize = 0;
    while i < procs.len()
        invariant
            i <= procs@.len(),
            ks == procs_view(procs@),
            procs_view(out@) == sorted_procs(ks.subrange(0, i as int), s),
        decreases procs@.len() - i,
    {
        let x = &procs[i];
        let mut j: usize = out.len();
        while j > 0 && before_exec(x, &out[j - 1], s)
            invariant
                j <= out@.len(),
                forall|k: int| j <= k < out@.len() ==> goes_before(x@, #[trigger] out@[k]@, s),
            decreases j,
        {
            j = j - 1;
        }
        let ghost before = procs_view(out@);
        proof {
            assert forall|k: int| j <= k < before.len() implies goes_before(
                x@,
                #[trigger] before[k],
                s,
            ) by {
                assert(before[k] == out@[k]@);
            }
            if j > 0 {
                assert(before[j - 1] == out@[j - 1]@);
            }
            lemma_insert_proc_at(before, x@, s, j as int);
            let t = ks.subrange(0, i + 1);
            assert(t.drop_last() =~= ks.subrange(0, i as int));
            assert(t.last() == x@);
        }
        out.insert(j, copy_proc(x));
        assert(procs_view(out@) =~= before.subrange(0, j as int).push(x@) + before.subrange(
            j as int,
            before.len() as int,
        ));
        i = i + 1;
    }
    assert(ks.subrange(0, procs@.len() as int) =~= ks);
    out
}

} // verus!
