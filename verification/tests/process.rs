use cheatu::process::{
    cmdline_of, detect_role, detect_wine, human_bytes, join_args, matches_filter,
    pick_best_process, picker_shows, rss_from_statm, sort_procs, ProcInfo, ProcSort,
};

/// The formatting the picker shows: repeated division of the byte count as
/// an `f64`, then one decimal place.
fn reference_human(bytes: u64) -> String {
    const UNITS: [&str; 5] = ["B", "KiB", "MiB", "GiB", "TiB"];
    let mut value = bytes as f64;
    let mut unit = 0;
    while value >= 1024.0 && unit < UNITS.len() - 1 {
        value /= 1024.0;
        unit += 1;
    }
    if unit == 0 {
        format!("{bytes} B")
    } else {
        format!("{value:.1} {}", UNITS[unit])
    }
}

#[test]
fn human_bytes_examples() {
    assert_eq!(human_bytes(0), "0 B");
    assert_eq!(human_bytes(1023), "1023 B");
    assert_eq!(human_bytes(1024), "1.0 KiB");
    assert_eq!(human_bytes(642_154_086), "612.4 MiB");
    assert_eq!(human_bytes(1u64 << 40), "1.0 TiB");
    assert_eq!(human_bytes(u64::MAX), "16777216.0 TiB");
}

#[test]
fn human_bytes_matches_float_formatting() {
    let mut probes: Vec<u64> = vec![1, 1535, 1536, 1587, 1588, 10_240, 1_048_575, 1_048_576];
    for shift in 9..64 {
        let p = 1u64 << shift;
        probes.extend_from_slice(&[p - 1, p, p + 1, p + p / 20, p + p / 20 + 1]);
    }
    let mut x: u64 = 0x2545_F491_4F6C_DD1D;
    for _ in 0..20_000 {
        x ^= x << 13;
        x ^= x >> 7;
        x ^= x << 17;
        probes.push(x >> (x % 60));
    }
    for b in probes {
        assert_eq!(human_bytes(b), reference_human(b), "bytes = {b}");
    }
}

fn proc(pid: i32, name: &str, cmdline: &str, rss: u64, wine: bool, role: Option<&str>) -> ProcInfo {
    ProcInfo {
        pid,
        name: name.to_string(),
        cmdline: cmdline.to_string(),
        rss_bytes: rss,
        is_wine: wine,
        role: role.map(String::from),
    }
}

#[test]
fn proc_label_layout() {
    let p = proc(12345, "Game.exe", "Z:\\Game\\Game.exe", 642_154_086, true, None);
    assert_eq!(p.label(), "  12345   612.4 MiB  Z:\\Game\\Game.exe [proton]");
    let q = proc(7, "nw", "", 2048, false, Some("renderer"));
    assert_eq!(q.label(), "      7     2.0 KiB  nw <renderer>");
}

#[test]
fn role_from_type_argument() {
    assert_eq!(
        detect_role("/opt/game/nw --type=renderer --lang=en").as_deref(),
        Some("renderer")
    );
    // An empty role is skipped; a later one counts.
    assert_eq!(
        detect_role("nw --type= --type=gpu-process").as_deref(),
        Some("gpu-process")
    );
    assert_eq!(detect_role("C:\\Game\\NW.EXE").as_deref(), Some("main"));
    assert_eq!(detect_role("/usr/bin/electron app").as_deref(), Some("main"));
    assert_eq!(detect_role("/usr/bin/bash -l"), None);
}

#[test]
fn wine_from_cmdline_or_environment() {
    assert!(detect_wine("Z:\\games\\Game.EXE", None));
    assert!(!detect_wine("/usr/bin/game", None));
    let env = b"HOME=/home/u\0WINEPREFIX=/home/u/.wine\0";
    assert!(detect_wine("/usr/bin/game", Some(env)));
    let env2 = b"PROTON_LOG=1";
    assert!(detect_wine("game", Some(env2)));
    // The marker must start an entry.
    let env3 = b"MY_WINEPREFIX=x\0A=PROTON";
    assert!(!detect_wine("game", Some(env3)));
}

#[test]
fn cmdline_joins_nonempty_arguments() {
    assert_eq!(cmdline_of(b"/usr/bin/game\0--fullscreen\0\0-x\0"), "/usr/bin/game --fullscreen -x");
    assert_eq!(cmdline_of(b""), "");
    assert_eq!(cmdline_of(b"\0\0"), "");
    // Invalid UTF-8 is replaced, as String::from_utf8_lossy does.
    assert_eq!(cmdline_of(b"a\xFFb\0c"), "a\u{FFFD}b c");
    assert_eq!(join_args(&["a".to_string(), "b c".to_string()]), "a b c");
}

#[test]
fn rss_from_second_statm_field() {
    assert_eq!(rss_from_statm("1000 250 30 1 0 100 0\n", 4096), 250 * 4096);
    assert_eq!(rss_from_statm("1000", 4096), 0);
    assert_eq!(rss_from_statm("1000 -5", 4096), 0);
    assert_eq!(rss_from_statm("1000 +7", 4096), 7 * 4096);
    assert_eq!(rss_from_statm("1 18446744073709551615", 2), u64::MAX.wrapping_mul(2));
}

#[test]
fn best_process_prefers_renderer_then_wine() {
    let procs = vec![
        proc(1, "a", "a", 500, false, None),
        proc(2, "nw", "nw --type=renderer", 300, false, Some("renderer")),
        proc(3, "nw", "nw --type=renderer", 300, false, Some("renderer")),
        proc(4, "g", "g.exe", 900, true, None),
    ];
    // The last of equally heavy renderers.
    assert_eq!(pick_best_process(&procs), Some(3));
    let no_renderer = vec![procs[0].clone(), procs[3].clone()];
    assert_eq!(pick_best_process(&no_renderer), Some(4));
    let plain = vec![procs[0].clone(), proc(9, "b", "b", 501, false, None)];
    assert_eq!(pick_best_process(&plain), Some(9));
    assert_eq!(pick_best_process(&[]), None);
}

#[test]
fn process_filters() {
    let p = proc(5, "Game", "/opt/Game/run --fast", 1, true, Some("renderer"));
    assert!(matches_filter(&p, "  gAmE "));
    assert!(matches_filter(&p, ""));
    assert!(matches_filter(&p, "FAST"));
    assert!(!matches_filter(&p, "slow"));
    assert!(picker_shows(&p, "rend", true));
    assert!(picker_shows(&p, "game", false));
    let q = proc(6, "x", "x", 1, false, None);
    assert!(!picker_shows(&q, "", true));
}

#[test]
fn process_sorting_is_stable() {
    let procs = vec![
        proc(30, "beta", "b", 10, false, None),
        proc(10, "Alpha", "a", 20, false, None),
        proc(20, "alpha", "c", 20, false, None),
    ];
    let by_pid: Vec<i32> = sort_procs(&procs, ProcSort::Pid).iter().map(|p| p.pid).collect();
    assert_eq!(by_pid, vec![10, 20, 30]);
    let by_mem: Vec<i32> = sort_procs(&procs, ProcSort::Memory).iter().map(|p| p.pid).collect();
    assert_eq!(by_mem, vec![10, 20, 30]);
    let by_name: Vec<i32> = sort_procs(&procs, ProcSort::Name).iter().map(|p| p.pid).collect();
    assert_eq!(by_name, vec![10, 20, 30]);
}

#[test]
fn picker_sorts_by_memory_first_and_keeps_everyone() {
    assert!(ProcSort::default() == ProcSort::Memory);
    let procs = vec![
        proc(7, "small", "s", 1, false, None),
        proc(8, "big", "b", 900, false, None),
        proc(9, "mid", "m", 50, false, None),
        proc(10, "big2", "b2", 900, false, None),
    ];
    let sorted = sort_procs(&procs, ProcSort::default());
    let pids: Vec<i32> = sorted.iter().map(|p| p.pid).collect();
    assert_eq!(pids, vec![8, 10, 9, 7]);
    for w in sorted.windows(2) {
        assert!(w[0].rss_bytes >= w[1].rss_bytes);
    }
}
