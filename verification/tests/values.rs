use cheatu::maps::{parse_maps, MemoryRegion};
use cheatu::scan::{sort_by_addr, work_items, Candidate, WORK_ITEM};
use cheatu::value::{parse_hex_bytes, ScanType, ScanValue};

#[test]
fn maps_lines_become_regions() {
    let text = "7f00-7f10 rw-p 00000000 00:00 0 [heap]\n\
                00400000-00452000 r-xs 00000000 08:02 173521      /usr/bin/dbus-daemon\n\
                garbage line\n\
                10-8 rw-p 0 0 0\n";
    let rs = parse_maps(text);
    assert!(rs.len() >= 2);
    assert_eq!((rs[0].start, rs[0].end), (0x7f00, 0x7f10));
    assert!(rs[0].read && rs[0].write && !rs[0].executable && !rs[0].shared);
    assert_eq!(rs[0].path, "[heap]");
    assert_eq!(rs[0].size(), 0x10);
    assert!(rs[0].is_scannable());
    assert_eq!(rs[1].path, "/usr/bin/dbus-daemon");
    assert!(rs[1].executable && rs[1].shared && !rs[1].write);
    assert!(!rs[1].is_scannable());
}

fn region(start: u64, end: u64) -> MemoryRegion {
    MemoryRegion {
        start,
        end,
        read: true,
        write: true,
        executable: false,
        shared: false,
        path: String::new(),
    }
}

#[test]
fn work_items_tile_regions() {
    let rs = vec![region(0, 2 * WORK_ITEM + 5), region(0x1_0000_0000, 0x1_0000_1000)];
    let items = work_items(&rs);
    assert_eq!(
        items,
        vec![
            (0, WORK_ITEM),
            (WORK_ITEM, 2 * WORK_ITEM),
            (2 * WORK_ITEM, 2 * WORK_ITEM + 5),
            (0x1_0000_0000, 0x1_0000_1000),
        ]
    );
    assert!(work_items(&[region(5, 5), region(9, 3)]).is_empty());
}

#[test]
fn scan_types_labels_and_signs() {
    assert_eq!(ScanType::default(), ScanType::I32);
    assert_eq!(ScanType::U16.size(), 2);
    assert_eq!(ScanType::Bytes(5).size(), 5);
    assert_eq!(ScanType::F64.label(), "f64");
    assert!(ScanType::F32.is_float() && !ScanType::I64.is_float());
    assert!(ScanType::I8.is_signed() && !ScanType::U8.is_signed());
    assert_eq!(ScanType::I32.with_sign(false), ScanType::U32);
    assert_eq!(ScanType::U64.with_sign(true), ScanType::I64);
    assert_eq!(ScanType::F32.with_sign(false), ScanType::F32);
    assert_eq!(ScanType::I32.friendly_label(), "4 Bytes");
    assert_eq!(ScanType::Bytes(12).friendly_label(), "Array of Bytes (12)");
    assert_eq!(ScanType::from_label("  INT "), Some(ScanType::I32));
    assert_eq!(ScanType::from_label("ulong"), Some(ScanType::U64));
    assert_eq!(ScanType::from_label("bool"), None);
}

#[test]
fn values_parse_and_show() {
    assert_eq!(ScanType::I8.parse(" -128 ").map(|v| v.display_text()).as_deref(), Some("-128"));
    assert!(ScanType::I8.parse("128").is_none());
    assert!(ScanType::U32.parse("-1").is_none());
    assert_eq!(ScanType::U64.parse("+18446744073709551615").map(|v| v.display_text()).as_deref(), Some("18446744073709551615"));
    let b = ScanType::Bytes(0).parse("48 65 6c").unwrap();
    assert_eq!(b.to_ne_bytes(), vec![0x48, 0x65, 0x6C]);
    assert_eq!(b.display_text(), "Hel");
    let t = ScanType::Bytes(0).parse("hi there").unwrap();
    assert_eq!(t.to_ne_bytes(), b"hi there".to_vec());
    assert_eq!(ScanValue::Bytes(vec![0, 0xFF]).display_text(), "00 FF");
    assert_eq!(parse_hex_bytes(&['4', '1', ' ', 'z']), None);
}

#[test]
fn encode_decode_roundtrip() {
    let values = vec![
        ScanValue::I8(-7),
        ScanValue::U16(0xBEEF),
        ScanValue::I32(i32::MIN),
        ScanValue::U64(0x0123_4567_89AB_CDEF),
        ScanValue::F32(1.5f32.to_bits()),
        ScanValue::F64((-2.25f64).to_bits()),
    ];
    for v in values {
        let bytes = v.to_ne_bytes();
        assert_eq!(bytes.len(), v.ty().size());
        let back = ScanValue::from_ne_bytes(v.ty(), &bytes).unwrap();
        assert_eq!(back.to_ne_bytes(), bytes);
        assert_eq!(back.ty(), v.ty());
    }
    assert_eq!(ScanValue::I16(-2).to_ne_bytes(), (-2i16).to_ne_bytes().to_vec());
    assert_eq!(
        ScanValue::from_ne_bytes(ScanType::U32, &7u32.to_ne_bytes()).map(|v| v.display_text()).as_deref(),
        Some("7")
    );
    assert!(ScanValue::from_ne_bytes(ScanType::U64, &[1, 2, 3]).is_none());
    assert!(ScanValue::I32(5).approx_eq(&ScanValue::I64(5)));
    assert!(!ScanValue::U8(5).approx_eq(&ScanValue::U8(6)));
}

#[test]
fn candidates_sort_by_address() {
    let cands = vec![
        Candidate { addr: 30, prev: ScanValue::U8(1) },
        Candidate { addr: 10, prev: ScanValue::U8(2) },
        Candidate { addr: 20, prev: ScanValue::U8(3) },
    ];
    let sorted = sort_by_addr(&cands);
    let addrs: Vec<u64> = sorted.iter().map(|c| c.addr).collect();
    assert_eq!(addrs, vec![10, 20, 30]);
    assert_eq!(sorted[0].prev.display_text(), "2");
}

#[test]
fn parsing_ignores_surrounding_whitespace() {
    assert_eq!(ScanType::I32.parse("  42\t").map(|v| v.ty()), Some(ScanType::I32));
    assert_eq!(ScanType::U8.parse("7").map(|v| v.ty()), Some(ScanType::U8));
    assert!(ScanType::Bytes(3).parse("anything at all").is_some());
    assert!(ScanType::Bytes(3).parse("").is_some());
}
