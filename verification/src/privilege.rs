//! Elevation bookkeeping: which arguments a relaunch through `pkexec`
//! carries, and what a relaunched instance reads back from its arguments.
//!
//! Scanning another user's (or a same-user, non-child) process's memory needs
//! root or `CAP_SYS_PTRACE`; `pkexec` (polkit) shows the desktop's standard
//! authentication prompt. Running it is the caller's part.

use vstd::prelude::*;
use crate::numeral::{parse_int, parse_int_spec};
use crate::fspath::{join_path, joined};
use crate::text::{chars_of, push_str, string_of, text_eq};

verus! {

/// Guard flag appended when relaunching, to avoid infinite elevation loops.
pub const ELEVATED_FLAG: &'static str = "--already-elevated";

/// Flag carrying a pid to auto-attach to after an elevated relaunch.
pub const ATTACH_FLAG: &'static str = "--attach";

/// The arguments a relaunch forwards from `args` (the current arguments,
/// program name excluded): all but the guard flag and any `--attach <pid>`
/// pair (an `--attach` and the argument after it, if any).
pub open spec fn forwarded(args: Seq<Seq<char>>) -> Seq<Seq<char>>
    decreases args.len(),
{
    if args.len() == 0 {
        seq![]
    } else if args[0] == ATTACH_FLAG@ {
        if args.len() == 1 {
            seq![]
        } else {
            forwarded(args.subrange(2, args.len() as int))
        }
    } else if args[0] == ELEVATED_FLAG@ {
        forwarded(args.drop_first())
    } else {
        seq![args[0]] + forwarded(args.drop_first())
    }
}

pub open spec fn views(v: Seq<String>) -> Seq<Seq<char>> {
    v.map_values(|s: String| s@)
}

/// The arguments for the relaunched program: the forwarded ones, then
/// `extra` (such as an `--attach <pid>` pair), then the guard flag.
pub fn relaunch_args(args: &[String], extra: &[String]) -> (r: Vec<String>)
    ensures
        views(r@) == forwarded(views(args@)) + views(extra@) + seq![ELEVATED_FLAG@],
{
    let mut out: Vec<String> = Vec::new();
    let n = args.len();
    let mut i: usize = 0;
    let ghost all = views(args@);
    assert(all.subrange(0, n as int) =~= all);
    while i < n
        invariant
            i <= n,
            n == args@.len(),
            all == views(args@),
            views(out@) + forwarded(all.subrange(i as int, n as int)) == forwarded(all),
        decreases n - i,
    {
        let ghost t = all.subrange(i as int, n as int);
        assert(t[0] == args@[i as int]@);
        if text_eq(args[i].as_str(), ATTACH_FLAG) {
            if i + 1 == n {
                proof {
                    assert(forwarded(t) =~= seq![]);
                    assert(all.subrange(n as int, n as int) =~= Seq::<Seq<char>>::empty());
                }
                i = n;
            } else {
                assert(t.subrange(2, t.len() as int) =~= all.subrange(i + 2, n as int));
                i = i + 2;
            }
        } else if text_eq(args[i].as_str(), ELEVATED_FLAG) {
            assert(t.drop_first() =~= all.subrange(i + 1, n as int));
            i = i + 1;
        } else {
            let ghost before = views(out@);
            out.push(args[i].clone());
            proof {
                assert(t.drop_first() =~= all.subrange(i + 1, n as int));
                assert(views(out@) =~= before.push(t[0]));
                assert(before + forwarded(t) =~= views(out@) + forwarded(t.drop_first()));
            }
            i = i + 1;
        }
    }
    proof {
        assert(all.subrange(n as int, n as int) =~= Seq::<Seq<char>>::empty());
        assert(views(out@) =~= forwarded(all));
    }
    let ghost mid = views(out@);
    let mut j: usize = 0;
    while j < extra.len()
        invariant
            j <= extra@.len(),
            views(out@) == mid + views(extra@).subrange(0, j as int),
        decreases extra@.len() - j,
    {
        let ghost before = views(out@);
        out.push(extra[j].clone());
        proof {
            assert(views(out@) =~= before.push(extra@[j as int]@));
            assert(views(extra@).subrange(0, j + 1) =~= views(extra@).subrange(0, j as int).push(
                extra@[j as int]@,
            ));
        }
        j = j + 1;
    }
    assert(views(extra@).subrange(0, extra@.len() as int) =~= views(extra@));
    let ghost before = views(out@);
    out.push(ELEVATED_FLAG.to_string());
    assert(views(out@) =~= before.push(ELEVATED_FLAG@));
    out
}

/// The variables a relaunch forwards through `env`, in order. `pkexec`
/// scrubs the environment; these let a GUI reach the user's Wayland or X11
/// session, and `HOME` and `XDG_CONFIG_HOME` keep configuration lookups on
/// the invoking user's files rather than root's.
pub open spec fn forwarded_names() -> Seq<Seq<char>> {
    seq![
        "HOME"@,
        "XDG_CONFIG_HOME"@,
        "DISPLAY"@,
        "WAYLAND_DISPLAY"@,
        "XDG_RUNTIME_DIR"@,
        "XAUTHORITY"@,
        "XDG_SESSION_TYPE"@,
        "XCURSOR_SIZE"@,
        "XCURSOR_THEME"@,
        "QT_QPA_PLATFORM"@,
        "GDK_BACKEND"@,
    ]
}

/// How many variables a relaunch forwards.
pub const FORWARDED_COUNT: usize = 11;

/// The name of forwarded variable `i` (see [`forwarded_names`]); none past
/// the last.
pub fn forwarded_key(i: usize) -> (r: Option<&'static str>)
    ensures
        match r {
            Some(k) => i < forwarded_names().len() && k@ == forwarded_names()[i as int],
            None => i >= forwarded_names().len(),
        },
{
    match i {
        0 => Some("HOME"),
        1 => Some("XDG_CONFIG_HOME"),
        2 => Some("DISPLAY"),
        3 => Some("WAYLAND_DISPLAY"),
        4 => Some("XDG_RUNTIME_DIR"),
        5 => Some("XAUTHORITY"),
        6 => Some("XDG_SESSION_TYPE"),
        7 => Some("XCURSOR_SIZE"),
        8 => Some("XCURSOR_THEME"),
        9 => Some("QT_QPA_PLATFORM"),
        10 => Some("GDK_BACKEND"),
        _ => None,
    }
}

/// The `NAME=value` assignments for the forwarded variables, given their
/// values (`values[i]` that of forwarded variable `i`, `None` where it is
/// not set): one for each variable that is set, in order.
pub open spec fn env_assignments(values: Seq<Option<String>>) -> Seq<Seq<char>>
    decreases values.len(),
{
    if values.len() == 0 {
        seq![]
    } else {
        let i = values.len() - 1;
        let before = env_assignments(values.drop_last());
        match values[i] {
            Some(v) => before.push(forwarded_names()[i] + "="@ + v@),
            None => before,
        }
    }
}

/// The arguments that run the relaunched program under `env` with the
/// forwarded variables set: `env`, then the assignments of those that are
/// set ([`env_assignments`]). The program and its arguments follow them.
pub fn forwarded_env_args(values: &[Option<String>]) -> (r: Vec<String>)
    requires
        values@.len() == forwarded_names().len(),
    ensures
        views(r@) == seq!["env"@] + env_assignments(values@),
{
    let mut out: Vec<String> = Vec::new();
    out.push("env".to_string());
    assert(values@.subrange(0, 0) =~= Seq::<Option<String>>::empty());
    assert(views(out@) =~= seq!["env"@] + env_assignments(values@.subrange(0, 0)));
    let mut i: usize = 0;
    while i < values.len()
        invariant
            i <= values@.len(),
            values@.len() == forwarded_names().len(),
            views(out@) == seq!["env"@] + env_assignments(values@.subrange(0, i as int)),
        decreases values@.len() - i,
    {
        let ghost before = views(out@);
        let ghost upto = values@.subrange(0, i + 1);
        assert(upto.drop_last() =~= values@.subrange(0, i as int));
        assert(upto[i as int] == values@[i as int]);
        match &values[i] {
            Some(v) => {
                if let Some(key) = forwarded_key(i) {
                    let mut cs: Vec<char> = Vec::new();
                    push_str(&mut cs, key);
                    push_str(&mut cs, "=");
                    push_str(&mut cs, v.as_str());
                    out.push(string_of(cs.as_slice()));
                    assert(cs@ =~= forwarded_names()[i as int] + "="@ + v@);
                    assert(views(out@) =~= before.push(forwarded_names()[i as int] + "="@ + v@));
                }
            },
            None => {},
        }
        i = i + 1;
    }
    assert(values@.subrange(0, values@.len() as int) =~= values@);
    out
}

/// Whether this invocation is the post-elevation relaunch: some argument is
/// the guard flag.
pub fn is_relaunch(args: &[String]) -> (r: bool)
    ensures
        r == exists|i: int| 0 <= i < args@.len() && #[trigger] args@[i]@ == ELEVATED_FLAG@,
{
    let mut i: usize = 0;
    while i < args.len()
        invariant
            i <= args@.len(),
            forall|j: int| 0 <= j < i ==> #[trigger] args@[j]@ != ELEVATED_FLAG@,
        decreases args@.len() - i,
    {
        if text_eq(args[i].as_str(), ELEVATED_FLAG) {
            return true;
        }
        i = i + 1;
    }
    false
}

/// The pid passed after the first `--attach` in `args`: the next argument
/// parsed as an `i32`; none where there is no `--attach`, nothing after it,
/// or no valid number.
pub open spec fn attach_pid(args: Seq<Seq<char>>) -> Option<int>
    decreases args.len(),
{
    if args.len() == 0 {
        None
    } else if args[0] == ATTACH_FLAG@ {
        if args.len() == 1 {
            None
        } else {
            parse_int_spec(args[1], 10, i32::MIN as int, i32::MAX as int)
        }
    } else {
        attach_pid(args.drop_first())
    }
}

/// The pid to re-attach to after an elevated relaunch, if any.
pub fn attach_target(args: &[String]) -> (r: Option<i32>)
    ensures
        match r {
            Some(p) => attach_pid(views(args@)) == Some(p as int),
            None => attach_pid(views(args@)) is None,
        },
{
    let n = args.len();
    let ghost all = views(args@);
    assert(all.subrange(0, n as int) =~= all);
    let mut i: usize = 0;
    while i < n
        invariant
            i <= n,
            n == args@.len(),
            all == views(args@),
            attach_pid(all) == attach_pid(all.subrange(i as int, n as int)),
        decreases n - i,
    {
        let ghost t = all.subrange(i as int, n as int);
        assert(t[0] == args@[i as int]@);
        assert(t.drop_first() =~= all.subrange(i + 1, n as int));
        if text_eq(args[i].as_str(), ATTACH_FLAG) {
            if i + 1 == n {
                return None;
            }
            assert(t[1] == args@[i + 1]@);
            let cs = chars_of(args[i + 1].as_str());
            return match parse_int(cs.as_slice(), 10, i32::MIN as i128, i32::MAX as i128) {
                Some(v) => Some(v as i32),
                None => None,
            };
        }
        i = i + 1;
    }
    assert(all.subrange(n as int, n as int) =~= Seq::<Seq<char>>::empty());
    None
}


/// The forwarded arguments hold neither the guard flag nor an `--attach`.
pub proof fn law_forwarded_drops_flags(args: Seq<Seq<char>>)
    ensures
        forall|i: int|
            0 <= i < forwarded(args).len() ==> #[trigger] forwarded(args)[i] != ATTACH_FLAG@
                && forwarded(args)[i] != ELEVATED_FLAG@,
    decreases args.len(),
{
    if args.len() > 0 {
        if args[0] == ATTACH_FLAG@ {
            if args.len() > 1 {
                law_forwarded_drops_flags(args.subrange(2, args.len() as int));
                assert(forwarded(args) == forwarded(args.subrange(2, args.len() as int)));
            } else {
                assert(forwarded(args) =~= Seq::<Seq<char>>::empty());
            }
        } else if args[0] == ELEVATED_FLAG@ {
            law_forwarded_drops_flags(args.drop_first());
            assert(forwarded(args) == forwarded(args.drop_first()));
        } else {
            let rest = forwarded(args.drop_first());
            law_forwarded_drops_flags(args.drop_first());
            assert(forwarded(args) == seq![args[0]] + rest);
            assert forall|i: int| 0 <= i < forwarded(args).len() implies #[trigger] forwarded(
                args,
            )[i] != ATTACH_FLAG@ && forwarded(args)[i] != ELEVATED_FLAG@ by {
                if i > 0 {
                    assert(forwarded(args)[i] == rest[i - 1]);
                } else {
                    assert(forwarded(args)[i] == args[0]);
                }
            }
        }
    }
}

proof fn lemma_attach_skips(a: Seq<Seq<char>>, b: Seq<Seq<char>>)
    requires
        forall|i: int| 0 <= i < a.len() ==> #[trigger] a[i] != ATTACH_FLAG@,
    ensures
        attach_pid(a + b) == attach_pid(b),
    decreases a.len(),
{
    if a.len() > 0 {
        assert((a + b)[0] == a[0]);
        assert((a + b).drop_first() =~= a.drop_first() + b);
        assert forall|i: int| 0 <= i < a.drop_first().len() implies #[trigger] a.drop_first()[i]
            != ATTACH_FLAG@ by {
            assert(a.drop_first()[i] == a[i + 1]);
        }
        lemma_attach_skips(a.drop_first(), b);
    }
}

/// A relaunch that passes `--attach <pid>` as its extra arguments re-attaches
/// to that pid: the relaunched program's first `--attach` is that one, since
/// no `--attach` is forwarded. Its arguments also end with the guard flag, so
/// it knows it is the relaunch.
pub proof fn law_relaunch_reattaches(args: Seq<Seq<char>>, pid: Seq<char>)
    ensures
        ({
            let out = forwarded(args) + seq![ATTACH_FLAG@, pid] + seq![ELEVATED_FLAG@];
            &&& attach_pid(out) == parse_int_spec(pid, 10, i32::MIN as int, i32::MAX as int)
            &&& out.last() == ELEVATED_FLAG@
        }),
{
    law_forwarded_drops_flags(args);
    let f = forwarded(args);
    let tail = seq![ATTACH_FLAG@, pid] + seq![ELEVATED_FLAG@];
    assert(f + seq![ATTACH_FLAG@, pid] + seq![ELEVATED_FLAG@] =~= f + tail);
    lemma_attach_skips(f, tail);
    assert(tail[0] == ATTACH_FLAG@);
    assert(tail[1] == pid);
}


/// The directories of a `PATH` value: its `:`-separated fields, in order
/// (an empty field stands for the current directory).
pub open spec fn path_dirs(path: Seq<char>) -> Seq<Seq<char>>
    decreases path.len(),
{
    let k = crate::text::index_of(path, ':');
    if k >= path.len() {
        seq![path]
    } else {
        seq![path.subrange(0, k as int)] + path_dirs(path.subrange(k as int + 1, path.len() as int))
    }
}

/// Where a program named `name` would be looked up on `PATH`: each
/// directory of `path` joined with `name`, in order.
pub fn path_candidates(path: &str, name: &str) -> (r: Vec<String>)
    requires
        name@.len() > 0,
        name@[0] != '/',
    ensures
        r@.len() == path_dirs(path@).len(),
        forall|i: int|
            0 <= i < r@.len() ==> #[trigger] r@[i]@ == joined(path_dirs(path@)[i], name@),
{
    let cs = chars_of(path);
    let n = cs.len();
    let mut out: Vec<String> = Vec::new();
    let ghost acc: Seq<Seq<char>> = seq![];
    let mut i: usize = 0;
    assert(cs@.subrange(0, n as int) =~= cs@);
    assert(acc + path_dirs(cs@) =~= path_dirs(cs@));
    loop
        invariant
            i <= n,
            n == cs@.len(),
            cs@ == path@,
            name@.len() > 0,
            name@[0] != '/',
            out@.len() == acc.len(),
            forall|k: int| 0 <= k < acc.len() ==> #[trigger] out@[k]@ == joined(acc[k], name@),
            acc + path_dirs(cs@.subrange(i as int, n as int)) == path_dirs(path@),
        decreases n - i,
    {
        let ghost t = cs@.subrange(i as int, n as int);
        let j = crate::text::find_char(cs.as_slice(), i, ':');
        proof {
            crate::text::lemma_index_of_bound(t, ':');
        }
        let dir = string_of(vstd::slice::slice_subrange(cs.as_slice(), i, j));
        let joined_path = join_path(dir.as_str(), name);
        out.push(joined_path);
        proof {
            assert(dir@ =~= t.subrange(0, j - i));
            if j < n {
                assert(t.subrange(j - i + 1, t.len() as int) =~= cs@.subrange(j + 1, n as int));
                assert(path_dirs(t) == seq![dir@] + path_dirs(cs@.subrange(j + 1, n as int)));
                assert(acc + path_dirs(t) =~= acc.push(dir@) + path_dirs(
                    cs@.subrange(j + 1, n as int),
                ));
            } else {
                assert(t.subrange(0, j - i) =~= t);
                assert(path_dirs(t) == seq![t]);
                assert(acc + path_dirs(t) =~= acc.push(dir@));
            }
            acc = acc.push(dir@);
        }
        if j == n {
            return out;
        }
        i = j + 1;
    }
}

} // verus!
