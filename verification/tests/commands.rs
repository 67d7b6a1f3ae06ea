use cheatu::choices::{scan_job, Job, NextMode, TypeSel};
use cheatu::cli::{
    command_kind, list_limit, parse_hex_address, parse_next, parse_pid, parse_set_args,
    parse_write_args, scan_plan, scan_types, split_command, type_choice, type_label, CommandKind,
    ScanPlan, TypeChoice,
};
use cheatu::scan::{FirstScan, NextScan, ANY_TYPES};
use cheatu::value::ScanType;

#[test]
fn command_line_split() {
    assert_eq!(split_command("next  >  50 "), ("next".to_string(), ">  50".to_string()));
    assert_eq!(split_command("count"), ("count".to_string(), String::new()));
    assert_eq!(split_command(""), (String::new(), String::new()));
    assert_eq!(command_kind("ls"), CommandKind::List);
    assert_eq!(command_kind("?"), CommandKind::Help);
    assert_eq!(command_kind("setall"), CommandKind::SetAll);
    assert_eq!(command_kind("frobnicate"), CommandKind::Unknown);
    assert_eq!(parse_pid("4242"), Some(4242));
    assert_eq!(parse_pid("abc"), None);
}

#[test]
fn next_command_arguments() {
    assert_eq!(parse_next("inc"), Ok((NextScan::Increased, None)));
    assert_eq!(parse_next("- extra"), Ok((NextScan::Decreased, None)));
    assert_eq!(parse_next("same"), Ok((NextScan::Unchanged, None)));
    assert_eq!(parse_next("!="), Ok((NextScan::Changed, None)));
    assert_eq!(parse_next("ne 7"), Ok((NextScan::Ne, Some("7".to_string()))));
    assert_eq!(parse_next("> 50"), Ok((NextScan::Gt, Some("50".to_string()))));
    assert_eq!(parse_next("<"), Err("usage: next < <value>".to_string()));
    assert_eq!(parse_next("120"), Ok((NextScan::Eq, Some("120".to_string()))));
    assert_eq!(
        parse_next(""),
        Err("usage: next <inc|dec|changed|unchanged|> N|< N|= N|!= N|VALUE>".to_string())
    );
}

#[test]
fn scan_command_plans() {
    assert!(matches!(scan_plan("", false, ScanType::I32, false), ScanPlan::Say(_)));
    assert!(matches!(
        scan_plan("?", false, ScanType::U16, false),
        ScanPlan::First(FirstScan::Unknown(ScanType::U16))
    ));
    match scan_plan("UNKNOWN", true, ScanType::I32, false) {
        ScanPlan::Say(m) => assert!(m.starts_with("an unknown-value scan needs a concrete type")),
        other => panic!("unexpected {other:?}"),
    }
    match scan_plan("?", false, ScanType::I32, true) {
        ScanPlan::Say(m) => assert_eq!(m, "already scanned; `scan ?` only makes sense as the first scan."),
        other => panic!("unexpected {other:?}"),
    }
    match scan_plan("100", true, ScanType::I32, false) {
        ScanPlan::First(FirstScan::Value { value, types }) => {
            assert_eq!(value, "100");
            assert_eq!(types, ANY_TYPES.to_vec());
        }
        other => panic!("unexpected {other:?}"),
    }
    match scan_plan("100", false, ScanType::I32, true) {
        ScanPlan::Narrow(v) => assert_eq!(v, "100"),
        other => panic!("unexpected {other:?}"),
    }
    assert_eq!(scan_types(false, ScanType::F64), vec![ScanType::F64]);
    assert_eq!(type_label(true, ScanType::I8), "any");
    assert_eq!(type_label(false, ScanType::I8), "i8");
}

#[test]
fn other_command_arguments() {
    assert_eq!(type_choice(""), TypeChoice::Show);
    assert_eq!(type_choice("ANY"), TypeChoice::Any);
    assert_eq!(type_choice("double"), TypeChoice::One(ScanType::F64));
    assert_eq!(type_choice("quad"), TypeChoice::Unknown);
    assert_eq!(parse_hex_address("0x0x7f12"), Some(0x7f12));
    assert_eq!(parse_hex_address("DEAD"), Some(0xDEAD));
    assert_eq!(parse_hex_address("0xg"), None);
    assert_eq!(parse_set_args("3 99"), Ok((3, "99".to_string())));
    assert_eq!(parse_set_args("x 99"), Err("index must be a number.".to_string()));
    assert_eq!(parse_set_args("3"), Err("usage: set <index> <value>".to_string()));
    assert_eq!(parse_write_args("0x10 5"), Ok((16, "5".to_string())));
    assert_eq!(
        parse_write_args("zz 5"),
        Err("address must be hexadecimal, e.g. 0x7f1234.".to_string())
    );
    assert_eq!(list_limit(" 5 "), 5);
    assert_eq!(list_limit(""), 20);
}

#[test]
fn gui_scan_choices() {
    assert_eq!(NextMode::default(), NextMode::Exact);
    assert_eq!(NextMode::Greater.label(), "greater than…");
    assert!(NextMode::Less.needs_value());
    assert!(!NextMode::Changed.needs_value());
    assert_eq!(NextMode::Decreased.scan(), NextScan::Decreased);
    assert_eq!(TypeSel::default(), TypeSel::One(ScanType::I32));
    assert_eq!(TypeSel::Any.label(), "Any (unknown type)");
    assert_eq!(TypeSel::One(ScanType::U64).label(), "u64");
    assert!(TypeSel::Any.is_any());
    assert_eq!(TypeSel::Any.types(), ANY_TYPES.to_vec());

    match scan_job(true, false, TypeSel::One(ScanType::I16), " 12 ", true, false, NextMode::Exact) {
        Ok(Job::First(FirstScan::Value { value, types })) => {
            assert_eq!(value, "12");
            assert_eq!(types, vec![ScanType::I16]);
        }
        other => panic!("unexpected {other:?}"),
    }
    match scan_job(true, false, TypeSel::Any, " 6400000..6500000 ", false, false, NextMode::Exact) {
        Ok(Job::First(FirstScan::Value { value, types })) => {
            assert_eq!(value, "6400000..6500000");
            assert_eq!(types, ANY_TYPES.to_vec());
        }
        other => panic!("unexpected {other:?}"),
    }
    assert_eq!(
        scan_job(true, false, TypeSel::Any, "lots", false, false, NextMode::Exact).unwrap_err(),
        "Enter a value to scan for."
    );
    assert_eq!(
        scan_job(true, true, TypeSel::Any, "", false, false, NextMode::Exact).unwrap_err(),
        "Unknown initial value needs a specific type, not “Any”."
    );
    assert_eq!(
        scan_job(false, false, TypeSel::Any, "1", true, false, NextMode::Exact).unwrap_err(),
        "Do a first scan before narrowing."
    );
    assert_eq!(
        scan_job(false, false, TypeSel::Any, "x", false, true, NextMode::Less).unwrap_err(),
        "Enter a value for this comparison."
    );
    match scan_job(false, false, TypeSel::Any, "x", false, true, NextMode::Changed) {
        Ok(Job::Next(NextScan::Changed, None)) => {}
        other => panic!("unexpected {other:?}"),
    }
}
