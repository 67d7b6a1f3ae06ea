//! Scan-engine scenarios. The target's memory is an in-process image (a
//! byte buffer at a base address); reading it is what a caller does with
//! `/proc/<pid>/mem` before handing blocks to the library.

use cheatu::maps::{region_for, MemoryRegion, RegionKind};
use cheatu::mem::{probe_sentinel, probe_verdict, ProbeOutcome};
use cheatu::scan::{
    address_hint, exact_matchers, parse_aob, scan_item, scan_pattern_block, scan_values_block,
    value_job, BlockScan, Candidate, Confidence, Matcher, NextScan, Scanner, ANY_TYPES,
};
use cheatu::value::{ScanType, ScanValue};

const BASE: u64 = 0x7f00_0000_0000;

/// A block of the target's memory, starting at `BASE`.
struct Image {
    bytes: Vec<u8>,
}

impl Image {
    fn new(len: usize) -> Image {
        // Filler that matches none of the values the scenarios look for.
        Image { bytes: (0..len).map(|i| (i % 7 + 0xE0) as u8).collect() }
    }

    fn put(&mut self, off: usize, data: &[u8]) {
        self.bytes[off..off + data.len()].copy_from_slice(data);
    }

    fn read(&self, addr: u64, ty: ScanType) -> Option<ScanValue> {
        let off = (addr - BASE) as usize;
        if off + ty.size() > self.bytes.len() {
            return None;
        }
        ScanValue::from_ne_bytes(ty, &self.bytes[off..off + ty.size()])
    }

    fn scan_values(&self, matchers: &[Matcher]) -> Vec<Candidate> {
        let mut out = Vec::new();
        let mut addr = BASE;
        let end = BASE + self.bytes.len() as u64;
        while addr < end {
            let off = (addr - BASE) as usize;
            let len = ((end - addr) as usize).min(0x1000);
            addr += scan_values_block(addr, &self.bytes[off..off + len], matchers, &mut out);
        }
        out
    }

    /// What reading `len` bytes at `addr` gives: the bytes inside the
    /// image, nothing outside it.
    fn block(&self, addr: u64, len: usize) -> Option<Vec<u8>> {
        if addr < BASE || addr >= BASE + self.bytes.len() as u64 {
            return None;
        }
        let off = (addr - BASE) as usize;
        Some(self.bytes[off..(off + len).min(self.bytes.len())].to_vec())
    }

    fn scan_pattern(&self, pat: &[Option<u8>]) -> Vec<Candidate> {
        let mut out = Vec::new();
        scan_pattern_block(BASE, &self.bytes, pat, &mut out);
        out
    }

    fn readings(&self, sc: &Scanner) -> Vec<Option<ScanValue>> {
        sc.results().iter().map(|c| self.read(c.addr, c.ty())).collect()
    }
}

fn first_value_scan(img: &Image, value: &str, ty: ScanType) -> Scanner {
    let mut sc = Scanner::new(1);
    let job = value_job(value, &[ty], Vec::new());
    let items = vec![(BASE, BASE + img.bytes.len() as u64)];
    sc.scan_first(&items, &job, &|addr: u64, len: usize| img.block(addr, len));
    sc
}

fn narrow(img: &Image, sc: &mut Scanner, how: NextScan, operand: Option<&str>) {
    let readings = img.readings(sc);
    let verdicts = vec![false; readings.len()];
    sc.next_scan(how, operand, &readings, &verdicts);
}

#[test]
fn first_scan_finds_a_known_value() {
    let mut img = Image::new(4096);
    img.put(808, &0x0123_4567_89ab_cdefu64.to_ne_bytes());
    let addr = BASE + 808;

    let mut sc = first_value_scan(&img, "81985529216486895", ScanType::U64);
    assert!(
        sc.results().iter().any(|c| c.addr == addr),
        "known value was not found at its actual address (found {} candidates)",
        sc.count()
    );

    // Narrowing by "unchanged" must retain it.
    narrow(&img, &mut sc, NextScan::Unchanged, None);
    assert!(sc.results().iter().any(|c| c.addr == addr));
}

#[test]
fn write_then_read_roundtrips() {
    let mut img = Image::new(64);
    img.put(8, &1000u32.to_ne_bytes());
    let addr = BASE + 8;

    let read = img.read(addr, ScanType::U32).unwrap();
    assert_eq!(read.display_text(), "1000");

    img.put(8, &ScanValue::U32(1337).to_ne_bytes());
    assert_eq!(u32::from_ne_bytes(img.bytes[8..12].try_into().unwrap()), 1337);
}

#[test]
fn next_scan_changed_tracks_updates() {
    let mut img = Image::new(256);
    img.put(40, &42i32.to_ne_bytes());
    let addr = BASE + 40;

    let mut sc = first_value_scan(&img, "42", ScanType::I32);
    assert!(sc.results().iter().any(|c| c.addr == addr));

    img.put(40, &99i32.to_ne_bytes());
    narrow(&img, &mut sc, NextScan::Increased, None);
    assert!(
        sc.results().iter().any(|c| c.addr == addr),
        "address dropped after value increased 42 -> 99"
    );
}

#[test]
fn undo_restores_the_pre_narrowing_candidate_set() {
    let mut img = Image::new(256);
    img.put(40, &42i32.to_ne_bytes());
    img.put(120, &42i32.to_ne_bytes());
    let addr = BASE + 40;

    let mut sc = first_value_scan(&img, "42", ScanType::I32);
    let before = sc.count();
    assert!(sc.results().iter().any(|c| c.addr == addr));
    assert!(!sc.can_undo(), "fresh first scan should have nothing to undo");

    // An accidental "decreased" scan drops our unchanged address.
    narrow(&img, &mut sc, NextScan::Decreased, None);
    assert!(!sc.results().iter().any(|c| c.addr == addr));

    assert!(sc.can_undo());
    assert!(sc.undo());
    assert_eq!(sc.count(), before);
    assert!(sc.results().iter().any(|c| c.addr == addr));
    assert!(!sc.can_undo(), "history is exhausted after one undo");
}

#[test]
fn read_typed_decodes_independent_of_scan_type() {
    let mut img = Image::new(16);
    img.put(2, &(-5i16).to_ne_bytes());
    let v = img.read(BASE + 2, ScanType::I16).unwrap();
    assert_eq!(v.display_text(), "-5");
}

/// The float keys bracketing exactly one `f32` value.
fn exact_f32(x: f32) -> Matcher {
    let b = x.to_bits();
    let key = if b >= 0x8000_0000 { 0xFFFF_FFFF - b } else { b + 0x8000_0000 } as u64;
    Matcher::Near { ty: ScanType::F32, lo: key, hi: key }
}

#[test]
fn any_scan_finds_value_regardless_of_type() {
    let mut img = Image::new(512);
    img.put(64, &1234.5f32.to_ne_bytes());
    img.put(200, &1234i32.to_ne_bytes());
    let faddr = BASE + 64;
    let iaddr = BASE + 200;

    // "1234.5" cannot be an integer: only the floating-point types apply.
    let mut matchers = exact_matchers("1234.5", &ANY_TYPES);
    assert!(matchers.is_empty());
    matchers.push(exact_f32(1234.5));
    let mut sc = Scanner::new(1);
    sc.first_scan(img.scan_values(&matchers));

    let hit = sc.results().iter().find(|c| c.addr == faddr);
    assert!(hit.is_some(), "float value not found by Any scan");
    assert_eq!(hit.unwrap().ty(), ScanType::F32);
    assert!(
        !sc.results().iter().any(|c| c.addr == iaddr),
        "integer address wrongly matched a fractional value"
    );

    let mut sc2 = Scanner::new(1);
    sc2.first_scan(img.scan_values(&exact_matchers("1234", &ANY_TYPES)));
    assert!(
        sc2.results().iter().any(|c| c.addr == iaddr && c.ty() == ScanType::I32),
        "integer value not found as i32 by Any scan"
    );
}

#[test]
fn parse_aob_handles_wildcards() {
    assert_eq!(
        parse_aob("48 65 ?? 6C 6F"),
        Some(vec![Some(0x48), Some(0x65), None, Some(0x6C), Some(0x6F),])
    );
    assert_eq!(parse_aob("zz"), None, "invalid hex token must fail to parse");
    assert_eq!(parse_aob(""), None, "empty pattern must fail to parse");
}

#[test]
fn pattern_scan_finds_a_string() {
    let mut img = Image::new(300);
    img.put(77, b"CHEATU_MARKER_1234");
    let addr = BASE + 77;

    let pattern: Vec<Option<u8>> = b"CHEATU_MARKER_1234".iter().map(|&b| Some(b)).collect();
    let mut sc = Scanner::new(1);
    sc.first_scan(img.scan_pattern(&pattern));
    assert!(
        sc.results().iter().any(|c| c.addr == addr),
        "string pattern not found at its actual address"
    );
}

#[test]
fn pattern_scan_matches_wildcards() {
    let mut img = Image::new(100);
    img.put(33, b"\xAA\xBB\xCC\xDD");
    let addr = BASE + 33;

    let pattern = parse_aob("AA ?? CC DD").unwrap();
    let mut sc = Scanner::new(1);
    sc.first_scan(img.scan_pattern(&pattern));

    let hit = sc.results().iter().find(|c| c.addr == addr);
    assert!(hit.is_some(), "wildcard AoB pattern not found");
    assert_eq!(
        hit.unwrap().prev.display_text(),
        "AA BB CC DD",
        "matched bytes should include the concrete byte at the wildcard position"
    );
}

fn region(start: u64, end: u64, exec: bool, path: &str) -> MemoryRegion {
    MemoryRegion {
        start,
        end,
        read: true,
        write: true,
        executable: exec,
        shared: false,
        path: path.to_string(),
    }
}

#[test]
fn region_kind_classifies_by_path() {
    assert_eq!(region(0, 1, false, "[heap]").kind(), RegionKind::Heap);
    assert_eq!(region(0, 1, false, "[stack]").kind(), RegionKind::Stack);
    assert_eq!(
        region(0, 1, false, "/usr/lib/libfoo.so").kind(),
        RegionKind::ModuleData
    );
    assert_eq!(region(0, 1, true, "/usr/lib/libfoo.so").kind(), RegionKind::Other);
    assert_eq!(region(0, 1, false, "").kind(), RegionKind::Anonymous);
}

#[test]
fn address_hint_ranks_region_and_type() {
    assert_eq!(
        address_hint(RegionKind::Heap, ScanType::I32).confidence,
        Confidence::Likely
    );
    assert_eq!(
        address_hint(RegionKind::ModuleData, ScanType::I32).confidence,
        Confidence::Likely
    );
    assert_eq!(
        address_hint(RegionKind::Stack, ScanType::I32).confidence,
        Confidence::Unlikely
    );
    assert_eq!(
        address_hint(RegionKind::Anonymous, ScanType::I32).confidence,
        Confidence::Neutral
    );
    let text = address_hint(RegionKind::Heap, ScanType::Bytes(3));
    assert_eq!(text.confidence, Confidence::Unlikely);
    assert_eq!(text.label, "text");
}

#[test]
fn probe_holds_and_restores_untouched_memory() {
    let mut img = Image::new(16);
    img.put(4, &0x1122_3344u32.to_ne_bytes());

    let original = img.bytes[4..8].to_vec();
    let sentinel = probe_sentinel(&original);
    img.put(4, &sentinel);
    // Nothing else writes to it during the wait.
    let readback = img.bytes[4..8].to_vec();
    let outcome = probe_verdict(&sentinel, &readback);
    assert_eq!(outcome, ProbeOutcome::Held);
    // Held restores the original bytes.
    img.put(4, &original);
    assert_eq!(
        u32::from_ne_bytes(img.bytes[4..8].try_into().unwrap()),
        0x1122_3344,
        "probe should restore the original value"
    );
}

#[test]
fn region_for_finds_containing_region() {
    let regions = vec![
        region(0x1000, 0x2000, false, "[heap]"),
        region(0x3000, 0x4000, false, "[stack]"),
    ];
    assert_eq!(region_for(&regions, 0x1500).map(|r| r.kind()), Some(RegionKind::Heap));
    assert_eq!(region_for(&regions, 0x3000).map(|r| r.kind()), Some(RegionKind::Stack));
    assert!(region_for(&regions, 0x2000).is_none());
    assert!(region_for(&regions, 0x9999).is_none());
}

#[test]
fn range_scan_keeps_every_value_in_the_range() {
    let mut img = Image::new(4096);
    img.put(400, &6_400_000i32.to_ne_bytes());
    img.put(800, &6_456_789i32.to_ne_bytes());
    img.put(1200, &6_500_000i32.to_ne_bytes());
    img.put(1600, &6_500_001i32.to_ne_bytes());
    img.put(2000, &6_399_999i32.to_ne_bytes());
    let sc = first_value_scan(&img, "6400000..6500000", ScanType::I32);
    let addrs: Vec<u64> = sc.results().iter().map(|c| c.addr).collect();
    assert!(addrs.contains(&(BASE + 400)));
    assert!(addrs.contains(&(BASE + 800)));
    assert!(addrs.contains(&(BASE + 1200)));
    assert!(!addrs.contains(&(BASE + 1600)));
    assert!(!addrs.contains(&(BASE + 2000)));
    // Spaces around the bounds are allowed; every integer type of an Any
    // scan gets the range.
    let ms = exact_matchers(" 6400000 .. 6500000 ", &ANY_TYPES);
    assert_eq!(ms.len(), 4);
    assert!(ms.iter().all(|m| matches!(m, Matcher::Between { lo: 6_400_000, hi: 6_500_000, .. })));
    assert!(ms.iter().all(|m| m.valid()));
    // Not a range: one side is not a number.
    assert!(exact_matchers("6400000..lots", &[ScanType::I32]).is_empty());
}

#[test]
fn integer_bounds_are_decided_without_a_verdict() {
    let mut img = Image::new(4096);
    img.put(64, &150i32.to_ne_bytes());
    let addr = BASE + 64;
    let mut sc = first_value_scan(&img, "150", ScanType::I32);
    assert!(sc.results().iter().any(|c| c.addr == addr));
    // Every verdict handed in is false: the integer case ignores it.
    narrow(&img, &mut sc, NextScan::Gt, Some(" 100 "));
    assert!(sc.results().iter().any(|c| c.addr == addr));
    narrow(&img, &mut sc, NextScan::Lt, Some("151"));
    assert!(sc.results().iter().any(|c| c.addr == addr));
    narrow(&img, &mut sc, NextScan::Lt, Some("150"));
    assert!(!sc.results().iter().any(|c| c.addr == addr));
}

#[test]
fn work_item_scan_skips_failed_reads() {
    let mut img = Image::new(3 * 0x10_0000);
    img.put(0x10, &77i32.to_ne_bytes());
    img.put(0x10_0000 + 0x20, &77i32.to_ne_bytes());
    img.put(2 * 0x10_0000 + 0x30, &77i32.to_ne_bytes());
    img.put(0x400, b"\xAA\xBB");
    let job = value_job("77", &[ScanType::I32], Vec::new());
    let end = BASE + img.bytes.len() as u64;
    // The middle chunk cannot be read: its hit is skipped, the others count.
    let read = |addr: u64, len: usize| {
        if addr == BASE + 0x10_0000 { None } else { img.block(addr, len) }
    };
    let mut out = Vec::new();
    scan_item(BASE, end, &job, &read, &mut out);
    let addrs: Vec<u64> = out.iter().map(|c| c.addr).collect();
    assert_eq!(addrs, vec![BASE + 0x10, BASE + 2 * 0x10_0000 + 0x30]);
    // Unknown-value and pattern scans go through the same walk.
    let mut every = Vec::new();
    scan_item(BASE, BASE + 16, &BlockScan::Every(ScanType::U32), &read, &mut every);
    assert_eq!(every.len(), 4);
    let mut found = Vec::new();
    scan_item(BASE, BASE + 0x1000, &BlockScan::Pattern(vec![Some(0xAA), None]), &read, &mut found);
    assert!(found.iter().any(|c| c.addr == BASE + 0x400));
    // A value that no type can hold gives nothing to look for.
    assert!(matches!(value_job("lots", &[ScanType::I32], Vec::new()), BlockScan::Values(ms) if ms.is_empty()));
}
