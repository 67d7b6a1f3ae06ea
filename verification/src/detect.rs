//! Recognising the engine behind a game directory, and the list of games a
//! directory scan offers.
//!
//! Looking at the disk (which files exist, canonical paths) is the caller's
//! part; it hands over what it found.

use vstd::prelude::*;
use crate::text::{chars_of, lower, text_less, text_lt, to_lower};

verus! {

/// What kind of application a game directory holds.
#[derive(Copy, Clone, Debug, PartialEq, Eq, Structural)]
pub enum Engine {
    /// RPG Maker MV (NW.js, `rpg_core.js`).
    RpgMakerMV,
    /// RPG Maker MZ (NW.js, `rmmz_core.js`).
    RpgMakerMZ,
    /// Some other NW.js app (has `nw.exe`/`nw` but no RPG Maker core).
    Nwjs,
    /// Not recognised: use the raw memory scanner.
    Unknown,
}

pub open spec fn engine_label(e: Engine) -> Seq<char> {
    match e {
        Engine::RpgMakerMV => "RPG Maker MV"@,
        Engine::RpgMakerMZ => "RPG Maker MZ"@,
        Engine::Nwjs => "NW.js app"@,
        Engine::Unknown => "unknown / native"@,
    }
}

impl Engine {
    /// Whether the JS-injection backend applies (an NW.js runtime is present).
    pub fn is_nwjs(self) -> (r: bool)
        ensures
            r == (self != Engine::Unknown),
    {
        !matches!(self, Engine::Unknown)
    }

    /// Whether this is an RPG Maker title with a known data model.
    pub fn is_rpgmaker(self) -> (r: bool)
        ensures
            r == (self == Engine::RpgMakerMV || self == Engine::RpgMakerMZ),
    {
        matches!(self, Engine::RpgMakerMV | Engine::RpgMakerMZ)
    }

    pub fn label(self) -> (r: &'static str)
        ensures
            r@ == engine_label(self),
    {
        match self {
            Engine::RpgMakerMV => "RPG Maker MV",
            Engine::RpgMakerMZ => "RPG Maker MZ",
            Engine::Nwjs => "NW.js app",
            Engine::Unknown => "unknown / native",
        }
    }
}

/// What was found in a game directory: whether `www` is a directory, whether
/// the MZ core (`js/rmmz_core.js`) and the MV core (`js/rpg_core.js`) exist
/// under `www` and under the directory itself, and whether `nw.exe`, `nw`,
/// `nw.dll` and `package.json` exist in it.
#[derive(Copy, Clone, Debug)]
pub struct DirProbe {
    pub www_is_dir: bool,
    pub www_mz_core: bool,
    pub www_mv_core: bool,
    pub mz_core: bool,
    pub mv_core: bool,
    pub nw_exe: bool,
    pub nw: bool,
    pub nw_dll: bool,
    pub package_json: bool,
}

/// The directory holds an NW.js runtime.
pub open spec fn nwjs_dir(p: DirProbe) -> bool {
    p.nw_exe || p.nw || p.nw_dll || (p.package_json && p.www_is_dir)
}

/// The engine a directory holds. RPG Maker keeps its code under `www/js`
/// (MV) or `js` (MZ and newer MV packaging), so the cores are looked for
/// under `www` when it is a directory; MZ ships `rmmz_core.js`, MV
/// `rpg_core.js`.
pub open spec fn engine_of(p: DirProbe) -> Engine {
    let mz = if p.www_is_dir {
        p.www_mz_core
    } else {
        p.mz_core
    };
    let mv = if p.www_is_dir {
        p.www_mv_core
    } else {
        p.mv_core
    };
    if mz {
        Engine::RpgMakerMZ
    } else if mv {
        Engine::RpgMakerMV
    } else if nwjs_dir(p) {
        Engine::Nwjs
    } else {
        Engine::Unknown
    }
}

/// Whether the directory holds an NW.js runtime.
pub fn is_nwjs_dir(p: &DirProbe) -> (r: bool)
    ensures
        r == nwjs_dir(*p),
{
    p.nw_exe || p.nw || p.nw_dll || (p.package_json && p.www_is_dir)
}

/// Guess a game directory's engine from its characteristic files.
pub fn detect_dir(p: &DirProbe) -> (r: Engine)
    ensures
        r == engine_of(*p),
{
    let base_mz = if p.www_is_dir {
        p.www_mz_core
    } else {
        p.mz_core
    };
    let base_mv = if p.www_is_dir {
        p.www_mv_core
    } else {
        p.mv_core
    };
    if base_mz {
        Engine::RpgMakerMZ
    } else if base_mv {
        Engine::RpgMakerMV
    } else if is_nwjs_dir(p) {
        Engine::Nwjs
    } else {
        Engine::Unknown
    }
}

/// A discovered game directory and its detected engine.
#[derive(Clone, Debug)]
pub struct FoundGame {
    pub path: String,
    pub name: String,
    pub engine: Engine,
}

pub struct GameV {
    pub path: Seq<char>,
    pub name: Seq<char>,
    pub engine: Engine,
}

impl View for FoundGame {
    type V = GameV;

    open spec fn view(&self) -> GameV {
        GameV { path: self.path@, name: self.name@, engine: self.engine }
    }
}

pub open spec fn games_view(gs: Seq<FoundGame>) -> Seq<GameV> {
    gs.map_values(|g: FoundGame| g@)
}

/// Whether some game of `gs` has path `p`.
pub open spec fn has_path(gs: Seq<GameV>, p: Seq<char>) -> bool {
    exists|i: int| 0 <= i < gs.len() && #[trigger] gs[i].path == p
}

/// The NW.js games of `gs` in order, each (canonical) path kept once, at
/// its first occurrence.
pub open spec fn distinct_games(gs: Seq<GameV>) -> Seq<GameV>
    decreases gs.len(),
{
    if gs.len() == 0 {
        seq![]
    } else {
        let prev = distinct_games(gs.drop_last());
        let g = gs.last();
        if g.engine != Engine::Unknown && !has_path(prev, g.path) {
            prev.push(g)
        } else {
            prev
        }
    }
}

/// `g` inserted into `s` after every game whose lower-cased name is not
/// greater than its own.
pub open spec fn insert_by_name(s: Seq<GameV>, g: GameV) -> Seq<GameV>
    decreases s.len(),
{
    if s.len() == 0 {
        seq![g]
    } else if text_lt(lower(g.name), lower(s.last().name)) {
        insert_by_name(s.drop_last(), g).push(s.last())
    } else {
        s.push(g)
    }
}

/// `gs` stably sorted by lower-cased name (`sort_by_key` on
/// `name.to_ascii_lowercase()`).
pub open spec fn sorted_by_name(gs: Seq<GameV>) -> Seq<GameV>
    decreases gs.len(),
{
    if gs.len() == 0 {
        seq![]
    } else {
        insert_by_name(sorted_by_name(gs.drop_last()), gs.last())
    }
}

proof fn lemma_insert_at(s: Seq<GameV>, g: GameV, j: int)
    requires
        0 <= j <= s.len(),
        forall|k: int| j <= k < s.len() ==> text_lt(lower(g.name), lower(#[trigger] s[k].name)),
        j == 0 || !text_lt(lower(g.name), lower(s[j - 1].name)),
    ensures
        insert_by_name(s, g) == s.subrange(0, j).push(g) + s.subrange(j, s.len() as int),
    decreases s.len() - j,
{
    if j == s.len() {
        if s.len() > 0 {
            assert(!text_lt(lower(g.name), lower(s.last().name)));
        }
        assert(s.subrange(0, j) =~= s);
        assert(s.subrange(0, j).push(g) + s.subrange(j, s.len() as int) =~= s.push(g));
    } else {
        let t = s.drop_last();
        assert(text_lt(lower(g.name), lower(s.last().name)));
        assert forall|k: int| j <= k < t.len() implies text_lt(
            lower(g.name),
            lower(#[trigger] t[k].name),
        ) by {
            assert(t[k] == s[k]);
        }
        if j > 0 {
            assert(t[j - 1] == s[j - 1]);
        }
        lemma_insert_at(t, g, j);
        assert(t.subrange(0, j) =~= s.subrange(0, j));
        assert(t.subrange(0, j).push(g) + t.subrange(j, t.len() as int) + seq![s.last()]
            =~= s.subrange(0, j).push(g) + s.subrange(j, s.len() as int));
    }
}

fn copy_game(g: &FoundGame) -> (r: FoundGame)
    ensures
        r@ == g@,
{
    FoundGame { path: g.path.clone(), name: g.name.clone(), engine: g.engine }
}

/// The games a scan offers, from the candidates it visited in order (the
/// scanned directory itself first, then its immediate subdirectories), each
/// with its canonical path, its name and its detected engine: the NW.js
/// games, one per canonical path (the first seen), sorted by lower-cased
/// name, games of equal names in visiting order.
pub fn scan_dir(visited: Vec<FoundGame>) -> (r: Vec<FoundGame>)
    ensures
        games_view(r@) == sorted_by_name(distinct_games(games_view(visited@))),
{
    let ghost vs = games_view(visited@);
    let mut kept: Vec<FoundGame> = Vec::new();
    let mut i: usize = 0;
    let n = visited.len();
    while i < n
        invariant
            i <= n,
            n == visited@.len(),
            vs == games_view(visited@),
            games_view(kept@) == distinct_games(vs.subrange(0, i as int)),
        decreases n - i,
    {
        let g = &visited[i];
        proof {
            let s = vs.subrange(0, i + 1);
            assert(s.drop_last() =~= vs.subrange(0, i as int));
            assert(s.last() == g@);
        }
        let mut seen = false;
        let mut k: usize = 0;
        while k < kept.len()
            invariant
                k <= kept@.len(),
                !seen ==> forall|m: int| 0 <= m < k ==> #[trigger] kept@[m].path@ != g.path@,
                seen ==> has_path(games_view(kept@), g.path@),
            decreases kept@.len() - k,
        {
            if kept[k].path == g.path {
                assert(games_view(kept@)[k as int].path == g.path@);
                seen = true;
            }
            k = k + 1;
        }
        proof {
            if !seen {
                assert forall|m: int| 0 <= m < games_view(kept@).len() implies #[trigger] games_view(
                    kept@,
                )[m].path != g.path@ by {
                    assert(games_view(kept@)[m] == kept@[m]@);
                }
            }
        }
        if g.engine.is_nwjs() && !seen {
            let ghost before = games_view(kept@);
            kept.push(copy_game(g));
            assert(games_view(kept@) =~= before.push(g@));
        }
        i = i + 1;
    }
    assert(vs.subrange(0, n as int) =~= vs);
    let ghost ks = games_view(kept@);
    let mut out: Vec<FoundGame> = Vec::new();
    let mut i: usize = 0;
    while i < kept.len()
        invariant
            i <= kept@.len(),
            ks == games_view(kept@),
            games_view(out@) == sorted_by_name(ks.subrange(0, i as int)),
        decreases kept@.len() - i,
    {
        let x = &kept[i];
        let key = to_lower(chars_of(x.name.as_str()).as_slice());
        let mut j: usize = out.len();
        while j > 0 && text_less(
            key.as_slice(),
            to_lower(chars_of(out[j - 1].name.as_str()).as_slice()).as_slice(),
        )
            invariant
                j <= out@.len(),
                key@ == lower(x.name@),
                forall|k: int|
                    j <= k < out@.len() ==> text_lt(lower(x.name@), lower(#[trigger] out@[k].name@)),
            decreases j,
        {
            j = j - 1;
        }
        let ghost before = games_view(out@);
        proof {
            assert forall|k: int| j <= k < before.len() implies text_lt(
                lower(x@.name),
                lower(#[trigger] before[k].name),
            ) by {
                assert(before[k] == out@[k]@);
            }
            if j > 0 {
                assert(before[j - 1] == out@[j - 1]@);
            }
            lemma_insert_at(before, x@, j as int);
            let s = ks.subrange(0, i + 1);
            assert(s.drop_last() =~= ks.subrange(0, i as int));
            assert(s.last() == x@);
        }
        out.insert(j, copy_game(x));
        assert(games_view(out@) =~= before.subrange(0, j as int).push(x@) + before.subrange(
            j as int,
            before.len() as int,
        ));
        i = i + 1;
    }
    assert(ks.subrange(0, kept@.len() as int) =~= ks);
    out
}


/// Paths of `gs` are pairwise distinct.
pub open spec fn paths_distinct(gs: Seq<GameV>) -> bool {
    forall|a: int, b: int| 0 <= a < b < gs.len() ==> (#[trigger] gs[a]).path != (#[trigger] gs[b]).path
}

/// `gs` is ordered by lower-cased name.
pub open spec fn name_sorted(gs: Seq<GameV>) -> bool {
    forall|a: int, b: int|
        0 <= a < b < gs.len() ==> !text_lt(lower((#[trigger] gs[b]).name), lower((#[trigger] gs[a]).name))
}

proof fn lemma_lt_asym(x: Seq<char>, y: Seq<char>)
    ensures
        text_lt(x, y) ==> !text_lt(y, x),
    decreases x.len(),
{
    if x.len() > 0 && y.len() > 0 && x[0] == y[0] {
        lemma_lt_asym(x.drop_first(), y.drop_first());
    }
}

proof fn lemma_le_trans(x: Seq<char>, y: Seq<char>, z: Seq<char>)
    requires
        !text_lt(y, x),
        !text_lt(z, y),
    ensures
        !text_lt(z, x),
    decreases x.len(),
{
    if x.len() > 0 && y.len() > 0 && z.len() > 0 {
        if x[0] == y[0] && y[0] == z[0] {
            lemma_le_trans(x.drop_first(), y.drop_first(), z.drop_first());
        }
    }
}

proof fn lemma_insert_shape(t: Seq<GameV>, g: GameV) -> (j: int)
    ensures
        0 <= j <= t.len(),
        insert_by_name(t, g) == t.subrange(0, j).push(g) + t.subrange(j, t.len() as int),
        forall|k: int| j <= k < t.len() ==> text_lt(lower(g.name), lower(#[trigger] t[k].name)),
        j == 0 || !text_lt(lower(g.name), lower(t[j - 1].name)),
    decreases t.len(),
{
    if t.len() == 0 {
        assert(t.subrange(0, 0).push(g) + t.subrange(0, 0) =~= seq![g]);
        0
    } else if text_lt(lower(g.name), lower(t.last().name)) {
        let u = t.drop_last();
        let j = lemma_insert_shape(u, g);
        assert(t.subrange(0, j) =~= u.subrange(0, j));
        assert(u.subrange(0, j).push(g) + u.subrange(j, u.len() as int) + seq![t.last()]
            =~= t.subrange(0, j).push(g) + t.subrange(j, t.len() as int));
        assert forall|k: int| j <= k < t.len() implies text_lt(
            lower(g.name),
            lower(#[trigger] t[k].name),
        ) by {
            if k < u.len() {
                assert(t[k] == u[k]);
            }
        }
        if j > 0 {
            assert(t[j - 1] == u[j - 1]);
        }
        j
    } else {
        let n = t.len() as int;
        assert(t.subrange(0, n) =~= t);
        assert(t.subrange(0, n).push(g) + t.subrange(n, n) =~= t.push(g));
        n
    }
}

/// What sorting keeps: every game of the result is one of `s`, the paths
/// are those of `s`, distinct paths stay distinct, and the result is
/// ordered by name.
proof fn lemma_sorted_props(s: Seq<GameV>)
    ensures
        ({
            let r = sorted_by_name(s);
            &&& r.len() == s.len()
            &&& forall|i: int| 0 <= i < r.len() ==> exists|k: int| 0 <= k < s.len() && #[trigger] r[i] == s[k]
            &&& forall|p: Seq<char>| has_path(r, p) <==> has_path(s, p)
            &&& paths_distinct(s) ==> paths_distinct(r)
            &&& name_sorted(r)
        }),
    decreases s.len(),
{
    if s.len() > 0 {
        let u = s.drop_last();
        let g = s.last();
        lemma_sorted_props(u);
        let t = sorted_by_name(u);
        let j = lemma_insert_shape(t, g);
        let r = sorted_by_name(s);
        assert(r == insert_by_name(t, g));
        // Positions of r in terms of t.
        assert forall|i: int| 0 <= i < r.len() implies (i < j ==> r[i] == t[i]) && (i == j ==> r[i]
            == g) && (i > j ==> r[i] == t[i - 1]) by {}
        assert forall|i: int| 0 <= i < r.len() implies exists|k: int|
            0 <= k < s.len() && #[trigger] r[i] == s[k] by {
            if i == j {
                assert(r[i] == s[s.len() - 1]);
            } else {
                let ti = if i < j {
                    i
                } else {
                    i - 1
                };
                assert(r[i] == t[ti]);
                let k = choose|k: int| 0 <= k < u.len() && t[ti] == u[k];
                assert(u[k] == s[k]);
            }
        }
        assert forall|p: Seq<char>| has_path(r, p) <==> has_path(s, p) by {
            if has_path(r, p) {
                let i = choose|i: int| 0 <= i < r.len() && #[trigger] r[i].path == p;
                if i == j {
                    assert(s[s.len() - 1].path == p);
                } else {
                    let ti = if i < j {
                        i
                    } else {
                        i - 1
                    };
                    assert(t[ti].path == p);
                    assert(has_path(t, p));
                    let k = choose|k: int| 0 <= k < u.len() && #[trigger] u[k].path == p;
                    assert(s[k].path == p);
                }
            }
            if has_path(s, p) {
                let k = choose|k: int| 0 <= k < s.len() && #[trigger] s[k].path == p;
                if k == s.len() - 1 {
                    assert(r[j].path == p);
                } else {
                    assert(u[k].path == p);
                    assert(has_path(u, p));
                    assert(has_path(t, p));
                    let ti = choose|ti: int| 0 <= ti < t.len() && #[trigger] t[ti].path == p;
                    if ti < j {
                        assert(r[ti].path == p);
                    } else {
                        assert(r[ti + 1].path == p);
                    }
                }
            }
        }
        if paths_distinct(s) {
            assert(paths_distinct(u)) by {
                assert forall|a: int, b: int| 0 <= a < b < u.len() implies (#[trigger] u[a]).path
                    != (#[trigger] u[b]).path by {
                    assert(u[a] == s[a] && u[b] == s[b]);
                }
            }
            assert(!has_path(t, g.path)) by {
                if has_path(t, g.path) {
                    assert(has_path(u, g.path));
                    let k = choose|k: int| 0 <= k < u.len() && #[trigger] u[k].path == g.path;
                    assert(s[k].path == s[s.len() - 1].path);
                }
            }
            assert forall|a: int, b: int| 0 <= a < b < r.len() implies (#[trigger] r[a]).path
                != (#[trigger] r[b]).path by {
                if a == j {
                    assert(r[b] == t[b - 1]);
                    assert(t[b - 1].path != g.path);
                } else if b == j {
                    assert(r[a] == t[a]);
                    assert(t[a].path != g.path);
                } else {
                    let ta = if a < j {
                        a
                    } else {
                        a - 1
                    };
                    let tb = if b < j {
                        b
                    } else {
                        b - 1
                    };
                    assert(r[a] == t[ta] && r[b] == t[tb]);
                    assert(ta < tb);
                }
            }
        }
        let kg = lower(g.name);
        assert forall|a: int, b: int| 0 <= a < b < r.len() implies !text_lt(
            lower((#[trigger] r[b]).name),
            lower((#[trigger] r[a]).name),
        ) by {
            if a == j {
                assert(r[b] == t[b - 1]);
                assert(text_lt(kg, lower(t[b - 1].name)));
                lemma_lt_asym(kg, lower(t[b - 1].name));
            } else if b == j {
                assert(r[a] == t[a]);
                assert(j > 0);
                assert(!text_lt(kg, lower(t[j - 1].name)));
                if a < j - 1 {
                    assert(!text_lt(lower(t[j - 1].name), lower(t[a].name)));
                    lemma_le_trans(lower(t[a].name), lower(t[j - 1].name), kg);
                }
            } else {
                let ta = if a < j {
                    a
                } else {
                    a - 1
                };
                let tb = if b < j {
                    b
                } else {
                    b - 1
                };
                assert(r[a] == t[ta] && r[b] == t[tb]);
                assert(ta < tb);
            }
        }
    }
}

proof fn lemma_distinct_props(gs: Seq<GameV>)
    ensures
        paths_distinct(distinct_games(gs)),
        forall|i: int|
            0 <= i < distinct_games(gs).len() ==> (#[trigger] distinct_games(gs)[i]).engine
                != Engine::Unknown,
    decreases gs.len(),
{
    if gs.len() > 0 {
        lemma_distinct_props(gs.drop_last());
        let prev = distinct_games(gs.drop_last());
        let g = gs.last();
        if g.engine != Engine::Unknown && !has_path(prev, g.path) {
            let d = prev.push(g);
            assert(distinct_games(gs) == d);
            assert forall|a: int, b: int| 0 <= a < b < d.len() implies (#[trigger] d[a]).path
                != (#[trigger] d[b]).path by {
                if b == d.len() - 1 {
                    assert(d[a] == prev[a]);
                    assert(!has_path(prev, g.path));
                    if d[a].path == g.path {
                        assert(prev[a].path == g.path);
                    }
                } else {
                    assert(d[a] == prev[a] && d[b] == prev[b]);
                }
            }
            assert forall|i: int| 0 <= i < d.len() implies (#[trigger] d[i]).engine
                != Engine::Unknown by {
                if i < prev.len() {
                    assert(d[i] == prev[i]);
                }
            }
        }
    }
}

/// The games a scan offers are NW.js games, each canonical path listed
/// once, in order of lower-cased name.
pub proof fn law_scan_dir_games(visited: Seq<GameV>)
    ensures
        ({
            let r = sorted_by_name(distinct_games(visited));
            &&& paths_distinct(r)
            &&& forall|i: int| 0 <= i < r.len() ==> (#[trigger] r[i]).engine != Engine::Unknown
            &&& name_sorted(r)
        }),
{
    let d = distinct_games(visited);
    lemma_distinct_props(visited);
    lemma_sorted_props(d);
    let r = sorted_by_name(d);
    assert forall|i: int| 0 <= i < r.len() implies (#[trigger] r[i]).engine != Engine::Unknown by {
        let k = choose|k: int| 0 <= k < d.len() && r[i] == d[k];
        assert(d[k].engine != Engine::Unknown);
    }
}

/// The engine cores are looked for under `www` when it is a directory and
/// at the directory's root otherwise, the other place being ignored: the
/// MZ core makes an RPG Maker MZ game, else the MV core an RPG Maker MV
/// game; with neither, an NW.js runtime (`nw.exe`, `nw`, `nw.dll`, or a
/// `package.json` beside `www`) makes an NW.js app, and anything else is
/// unknown.
pub proof fn law_engine_cores(p: DirProbe, other_mz: bool, other_mv: bool)
    ensures
        ({
            let mz = if p.www_is_dir {
                p.www_mz_core
            } else {
                p.mz_core
            };
            let mv = if p.www_is_dir {
                p.www_mv_core
            } else {
                p.mv_core
            };
            &&& mz ==> engine_of(p) == Engine::RpgMakerMZ
            &&& !mz && mv ==> engine_of(p) == Engine::RpgMakerMV
            &&& !mz && !mv ==> engine_of(p) == (if p.nw_exe || p.nw || p.nw_dll || (p.package_json
                && p.www_is_dir) {
                Engine::Nwjs
            } else {
                Engine::Unknown
            })
        }),
        !p.www_is_dir && p.mz_core ==> engine_of(p) == Engine::RpgMakerMZ,
        !p.www_is_dir && !p.mz_core && p.mv_core ==> engine_of(p) == Engine::RpgMakerMV,
        p.www_is_dir ==> engine_of(p) == engine_of(
            (DirProbe { mz_core: other_mz, mv_core: other_mv, ..p }),
        ),
        !p.www_is_dir ==> engine_of(p) == engine_of(
            (DirProbe { www_mz_core: other_mz, www_mv_core: other_mv, ..p }),
        ),
{
}

/// An RPG Maker title is an NW.js application.
pub proof fn law_rpgmaker_is_nwjs(e: Engine)
    ensures
        (e == Engine::RpgMakerMV || e == Engine::RpgMakerMZ) ==> e != Engine::Unknown,
        engine_label(e).len() > 0,
{
    reveal_strlit("RPG Maker MV");
    reveal_strlit("RPG Maker MZ");
    reveal_strlit("NW.js app");
    reveal_strlit("unknown / native");
}

} // verus!
