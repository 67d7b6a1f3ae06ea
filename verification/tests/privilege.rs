use cheatu::mem::{probe_restore, probe_sentinel, probe_verdict, ProbeOutcome};
use cheatu::privilege::{
    attach_target, forwarded_env_args, forwarded_key, is_relaunch, path_candidates, relaunch_args,
    ATTACH_FLAG, ELEVATED_FLAG, FORWARDED_COUNT,
};

fn strings(v: &[&str]) -> Vec<String> {
    v.iter().map(|s| s.to_string()).collect()
}

#[test]
fn relaunch_forwards_arguments_without_stale_flags() {
    let args = strings(&["--pid", "5", "--attach", "77", "--already-elevated", "-v"]);
    let extra = strings(&["--attach", "1234"]);
    let out = relaunch_args(&args, &extra);
    assert_eq!(
        out,
        strings(&["--pid", "5", "-v", "--attach", "1234", "--already-elevated"])
    );
    assert!(is_relaunch(&out));
    assert_eq!(attach_target(&out), Some(1234));
    // A trailing --attach without a pid is dropped too.
    assert_eq!(relaunch_args(&strings(&["x", "--attach"]), &[]), strings(&["x", ELEVATED_FLAG]));
}

#[test]
fn attach_target_reads_first_flag() {
    assert_eq!(attach_target(&strings(&["prog", ATTACH_FLAG, "-3"])), Some(-3));
    assert_eq!(attach_target(&strings(&["prog", ATTACH_FLAG, "x", ATTACH_FLAG, "5"])), None);
    assert_eq!(attach_target(&strings(&["prog", ATTACH_FLAG])), None);
    assert_eq!(attach_target(&strings(&["prog"])), None);
    assert!(!is_relaunch(&strings(&["prog"])));
}

#[test]
fn path_lookup_candidates() {
    assert_eq!(
        path_candidates("/usr/bin:/bin/::/opt", "pkexec"),
        strings(&["/usr/bin/pkexec", "/bin/pkexec", "pkexec", "/opt/pkexec"])
    );
    assert_eq!(path_candidates("", "pkexec"), strings(&["pkexec"]));
}

#[test]
fn probe_reports_reverted_when_overwritten() {
    let original = vec![10u8, 0, 0, 0];
    let sentinel = probe_sentinel(&original);
    assert_eq!(sentinel, vec![11u8, 0, 0, 0]);
    assert_eq!(probe_verdict(&sentinel, &original), ProbeOutcome::Reverted);
    assert_eq!(probe_verdict(&sentinel, &sentinel), ProbeOutcome::Held);
    assert_eq!(probe_restore(ProbeOutcome::Held, &original), Some(original.clone()));
    assert_eq!(probe_restore(ProbeOutcome::Reverted, &original), None);
}

#[test]
fn forwarded_keys_name_the_session_variables() {
    assert_eq!(forwarded_key(0), Some("HOME"));
    assert_eq!(forwarded_key(2), Some("DISPLAY"));
    assert_eq!(forwarded_key(5), Some("XAUTHORITY"));
    assert_eq!(forwarded_key(FORWARDED_COUNT - 1), Some("GDK_BACKEND"));
    assert_eq!(forwarded_key(FORWARDED_COUNT), None);
}

#[test]
fn env_args_set_only_the_variables_that_are_set() {
    let mut values: Vec<Option<String>> = vec![None; FORWARDED_COUNT];
    values[0] = Some("/home/u".to_string());
    values[2] = Some(":0".to_string());
    values[3] = Some(String::new());
    assert_eq!(
        forwarded_env_args(&values),
        strings(&["env", "HOME=/home/u", "DISPLAY=:0", "WAYLAND_DISPLAY="])
    );
    assert_eq!(forwarded_env_args(&vec![None; FORWARDED_COUNT]), strings(&["env"]));
}
