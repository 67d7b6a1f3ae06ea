//! The scan engine: a first scan builds a candidate set, next scans refine
//! it, and an undo history restores earlier sets.
//!
//! Each [`Candidate`] carries its own [`ScanValue`], so its type travels with
//! it and one result set can mix types (the "Any" scan).
//!
//! Reading the target's memory is done by the caller; this module decides
//! what a block of memory that was read contributes, which candidates survive
//! a narrowing, and keeps the candidate set and its history.

use vstd::prelude::*;
use crate::maps::{MemoryRegion, RegionKind, RegionModel};
use crate::numeral::{parse_int, parse_int_spec};
use crate::text::{
    chars_of, find_first, first_index, lit, split_words, string_of, trim, trimmed, words,
};
use crate::ieee::{grid_u64, int_as_f64};
use crate::value::{decode_model, eq_lit, exact_eq, parse_model, ScanType, ScanValue, ValueModel};

verus! {

/// The set of types tried by an "Any" scan: 8- and 16-bit widths are left
/// out because a small number matches almost every byte or short in memory.
pub const ANY_TYPES: [ScanType; 6] = [
    ScanType::I32,
    ScanType::U32,
    ScanType::I64,
    ScanType::U64,
    ScanType::F32,
    ScanType::F64,
];

/// Size of one parallel work item of a first scan (8 MiB), a multiple of 8.
pub const WORK_ITEM: u64 = 0x80_0000;

/// Size of one read from the target during a first scan (1 MiB).
pub const CHUNK: usize = 0x10_0000;

/// A surviving candidate address and the value last observed there.
#[derive(Debug)]
pub struct Candidate {
    pub addr: u64,
    /// Value observed at the most recent scan; its variant records the type.
    pub prev: ScanValue,
}

pub struct CandidateModel {
    pub addr: u64,
    pub prev: ValueModel,
}

impl View for Candidate {
    type V = CandidateModel;

    open spec fn view(&self) -> CandidateModel {
        CandidateModel { addr: self.addr, prev: self.prev@ }
    }
}

/// The models of a sequence of candidates.
pub open spec fn models(v: Seq<Candidate>) -> Seq<CandidateModel> {
    v.map_values(|c: Candidate| c@)
}

impl Candidate {
    /// The numeric type this candidate is tracked as.
    pub fn ty(&self) -> (r: ScanType)
        ensures
            r == self.prev@.kind(),
    {
        self.prev.ty()
    }

    /// A copy of this candidate.
    pub fn duplicate(&self) -> (r: Candidate)
        ensures
            r@ == self@,
    {
        Candidate { addr: self.addr, prev: self.prev.duplicate() }
    }
}

/// The comparison for an initial (first) scan.
#[derive(Clone, Debug)]
pub enum FirstScan {
    /// Match `value` (entered as text) decoded as each of `types`; types that
    /// cannot represent the value are skipped. An integer range `a..b` keeps
    /// every integer slot whose number lies in it.
    Value { value: String, types: Vec<ScanType> },
    /// Keep every scannable address, decoded as one type (unknown value).
    Unknown(ScanType),
    /// An Array-of-Bytes pattern; `None` is a wildcard byte.
    Pattern(Vec<Option<u8>>),
}

/// The comparison for a subsequent (next) scan.
#[derive(Copy, Clone, Debug, PartialEq, Eq, Structural)]
pub enum NextScan {
    /// Equal to the operand.
    Eq,
    /// Not equal to the operand.
    Ne,
    /// Greater than the operand.
    Gt,
    /// Less than the operand.
    Lt,
    /// Larger than at the previous scan.
    Increased,
    /// Smaller than at the previous scan.
    Decreased,
    /// Different from the previous scan.
    Changed,
    /// Same as the previous scan.
    Unchanged,
}

impl NextScan {
    pub open spec fn reads_operand(self) -> bool {
        self is Eq || self is Ne || self is Gt || self is Lt
    }

    /// Whether this comparison reads the operand value.
    pub fn needs_operand(self) -> (r: bool)
        ensures
            r == self.reads_operand(),
    {
        matches!(self, NextScan::Eq | NextScan::Ne | NextScan::Gt | NextScan::Lt)
    }
}

/// One token of an Array-of-Bytes pattern: `?` or `??` is a wildcard,
/// anything else must be a hex byte.
pub open spec fn aob_token(t: Seq<char>) -> Option<Option<u8>> {
    if t == "?"@ || t == "??"@ {
        Some(None)
    } else {
        match parse_int_spec(t, 16, 0, 255) {
            Some(b) => Some(Some(b as u8)),
            None => None,
        }
    }
}

/// An Array-of-Bytes pattern such as `"48 65 ?? 6C 6F"`: at least one
/// whitespace-separated token, each a hex byte or a wildcard.
pub open spec fn aob_model(s: Seq<char>) -> Option<Seq<Option<u8>>> {
    let ws = words(s);
    if ws.len() == 0 {
        None
    } else if forall|i: int| 0 <= i < ws.len() ==> (#[trigger] aob_token(ws[i])) is Some {
        Some(Seq::new(ws.len(), |i: int| aob_token(ws[i]).unwrap()))
    } else {
        None
    }
}

/// Parse an Array-of-Bytes pattern; `None` marks a wildcard byte.
pub fn parse_aob(s: &str) -> (r: Option<Vec<Option<u8>>>)
    ensures
        match r {
            Some(p) => aob_model(s@) == Some(p@),
            None => aob_model(s@) is None,
        },
{
    let cs = chars_of(s);
    let ws = split_words(cs.as_slice());
    let ghost model = words(s@);
    if ws.len() == 0 {
        return None;
    }
    let mut out: Vec<Option<u8>> = Vec::new();
    let mut i: usize = 0;
    while i < ws.len()
        invariant
            i <= ws@.len(),
            ws@.len() == model.len(),
            model == words(s@),
            forall|k: int| 0 <= k < ws@.len() ==> #[trigger] ws@[k]@ == model[k],
            out@.len() == i,
            forall|k: int|
                0 <= k < i ==> (#[trigger] aob_token(model[k])) is Some && out@[k] == aob_token(
                    model[k],
                ).unwrap(),
        decreases ws@.len() - i,
    {
        let t = ws[i].as_slice();
        if eq_lit(t, "?") || eq_lit(t, "??") {
            out.push(None);
        } else {
            match parse_int(t, 16, 0, 255) {
                Some(b) => {
                    out.push(Some(b as u8));
                },
                None => {
                    assert(aob_token(model[i as int]) is None);
                    return None;
                },
            }
        }
        i = i + 1;
    }
    assert(out@ =~= Seq::new(model.len(), |k: int| aob_token(model[k]).unwrap()));
    Some(out)
}

/// How likely a candidate is to be the authoritative game value.
#[derive(Copy, Clone, Debug, PartialEq, Eq, Structural)]
pub enum Confidence {
    Likely,
    Neutral,
    Unlikely,
}

/// A ranking hint for a candidate address, with a short label.
#[derive(Copy, Clone, Debug)]
pub struct Hint {
    pub confidence: Confidence,
    pub label: &'static str,
}

/// Confidence of a candidate of type `ty` in a region of kind `kind`: text
/// (byte-pattern) matches are display copies wherever they are; otherwise
/// heap and module data are likely, the stack unlikely, the rest neutral.
pub open spec fn hint_confidence(kind: RegionKind, ty: ScanType) -> Confidence {
    if ty is Bytes {
        Confidence::Unlikely
    } else {
        match kind {
            RegionKind::Heap | RegionKind::ModuleData => Confidence::Likely,
            RegionKind::Stack => Confidence::Unlikely,
            RegionKind::Anonymous | RegionKind::Other => Confidence::Neutral,
        }
    }
}

pub open spec fn hint_label(kind: RegionKind, ty: ScanType) -> Seq<char> {
    if ty is Bytes {
        "text"@
    } else {
        match kind {
            RegionKind::Heap => "heap"@,
            RegionKind::ModuleData => "module data"@,
            RegionKind::Stack => "stack"@,
            RegionKind::Anonymous => "anonymous"@,
            RegionKind::Other => "other"@,
        }
    }
}

/// The "real value" hint for a candidate of type `ty` in a region of `kind`.
pub fn address_hint(kind: RegionKind, ty: ScanType) -> (r: Hint)
    ensures
        r.confidence == hint_confidence(kind, ty),
        r.label@ == hint_label(kind, ty),
{
    if let ScanType::Bytes(_) = ty {
        return Hint { confidence: Confidence::Unlikely, label: "text" };
    }
    match kind {
        RegionKind::Heap => Hint { confidence: Confidence::Likely, label: "heap" },
        RegionKind::ModuleData => Hint { confidence: Confidence::Likely, label: "module data" },
        RegionKind::Stack => Hint { confidence: Confidence::Unlikely, label: "stack" },
        RegionKind::Anonymous => Hint { confidence: Confidence::Neutral, label: "anonymous" },
        RegionKind::Other => Hint { confidence: Confidence::Neutral, label: "other" },
    }
}

/// `[s, e)` split into consecutive pieces of at most [`WORK_ITEM`] bytes.
pub open spec fn pieces(s: u64, e: u64) -> Seq<(u64, u64)>
    decreases e - s,
{
    if s >= e {
        seq![]
    } else {
        let m = if e - s > WORK_ITEM {
            (s + WORK_ITEM) as u64
        } else {
            e
        };
        seq![(s, m)] + pieces(m, e)
    }
}

/// The work items of a sequence of regions, region by region.
pub open spec fn items_model(rs: Seq<RegionModel>) -> Seq<(u64, u64)>
    decreases rs.len(),
{
    if rs.len() == 0 {
        seq![]
    } else {
        pieces(rs[0].start, rs[0].end) + items_model(rs.drop_first())
    }
}

pub open spec fn region_models(rs: Seq<MemoryRegion>) -> Seq<RegionModel> {
    rs.map_values(|r: MemoryRegion| r@)
}

/// Split regions into work items of at most [`WORK_ITEM`] bytes, so that
/// worker threads share the load evenly even when one region dwarfs the rest.
pub fn work_items(regions: &[MemoryRegion]) -> (r: Vec<(u64, u64)>)
    ensures
        r@ == items_model(region_models(regions@)),
{
    let mut items: Vec<(u64, u64)> = Vec::new();
    let mut k: usize = 0;
    let ghost all = region_models(regions@);
    assert(all.subrange(0, all.len() as int) =~= all);
    assert(items@ + items_model(all) =~= items_model(all));
    while k < regions.len()
        invariant
            k <= regions@.len(),
            all == region_models(regions@),
            items@ + items_model(all.subrange(k as int, all.len() as int)) == items_model(all),
        decreases regions@.len() - k,
    {
        let region = &regions[k];
        let mut start = region.start;
        let end = region.end;
        let ghost before = items@;
        while start < end
            invariant
                before + pieces(region.start, end) == items@ + pieces(start, end),
            decreases end - start,
        {
            let next = if end - start > WORK_ITEM {
                start + WORK_ITEM
            } else {
                end
            };
            items.push((start, next));
            start = next;
        }
        proof {
            assert(pieces(start, end) =~= Seq::<(u64, u64)>::empty());
            let rest = all.subrange(k as int, all.len() as int);
            assert(rest[0] == regions@[k as int]@);
            assert(rest.drop_first() =~= all.subrange(k + 1, all.len() as int));
        }
        k = k + 1;
    }
    proof {
        assert(all.subrange(all.len() as int, all.len() as int) =~= Seq::<RegionModel>::empty());
    }
    items
}

/// What a first scan looks for in the slots of a block of memory.
#[derive(Debug)]
pub enum Matcher {
    /// Slots decoded as the type that equal the (non-floating) value.
    Exact(ScanType, ScanValue),
    /// Floating-point slots of `ty` whose ordering key ([`float_key`]) lies in
    /// `lo..=hi`; NaN never matches. The caller derives the range from its
    /// floating-point tolerance comparison, which keeps a contiguous range
    /// of values.
    Near { ty: ScanType, lo: u64, hi: u64 },
    /// Slots of the integer type `ty` whose number lies in `lo..=hi` (a
    /// range scan such as `6400000..6500000`).
    Between { ty: ScanType, lo: i128, hi: i128 },
    /// Every slot of the type (unknown initial value).
    Every(ScanType),
}

/// Position of a floating-point bit pattern in the order of the values it
/// denotes (negative numbers reversed below the positive ones).
pub open spec fn float_key(v: ValueModel) -> nat {
    match v {
        ValueModel::F32(b) => if b >= 0x8000_0000 {
            (0xFFFF_FFFF - b) as nat
        } else {
            (b + 0x8000_0000) as nat
        },
        ValueModel::F64(b) => if b >= 0x8000_0000_0000_0000 {
            (0xFFFF_FFFF_FFFF_FFFF - b) as nat
        } else {
            (b + 0x8000_0000_0000_0000) as nat
        },
        _ => 0,
    }
}

/// Whether a floating-point bit pattern is a NaN (all-ones exponent,
/// non-zero fraction).
pub open spec fn is_nan(v: ValueModel) -> bool {
    match v {
        ValueModel::F32(b) => (b / 0x80_0000) % 0x100 == 0xFF && b % 0x80_0000 != 0,
        ValueModel::F64(b) => (b / 0x10_0000_0000_0000) % 0x800 == 0x7FF && b
            % 0x10_0000_0000_0000 != 0,
        _ => false,
    }
}

impl Matcher {
    /// The type a slot is decoded as.
    pub open spec fn slot_type(self) -> ScanType {
        match self {
            Matcher::Exact(ty, _) => ty,
            Matcher::Near { ty, .. } => ty,
            Matcher::Between { ty, .. } => ty,
            Matcher::Every(ty) => ty,
        }
    }

    pub open spec fn accepts(self, v: ValueModel) -> bool {
        match self {
            Matcher::Exact(_, t) => exact_eq(v, t@),
            Matcher::Near { lo, hi, .. } => !is_nan(v) && lo <= float_key(v) <= hi,
            Matcher::Between { lo, hi, .. } => match v.number() {
                Some(n) => lo <= n <= hi,
                None => false,
            },
            Matcher::Every(_) => true,
        }
    }

    pub open spec fn wf(self) -> bool {
        &&& self.slot_type().width() >= 1
        &&& match self {
            Matcher::Exact(ty, t) => !ty.floating() && !t@.kind().floating(),
            Matcher::Near { ty, .. } => ty.floating(),
            Matcher::Between { ty, .. } => ty.integral(),
            Matcher::Every(_) => true,
        }
    }

    fn ty(&self) -> (r: ScanType)
        ensures
            r == self.slot_type(),
    {
        match self {
            Matcher::Exact(ty, _) => *ty,
            Matcher::Near { ty, .. } => *ty,
            Matcher::Between { ty, .. } => *ty,
            Matcher::Every(ty) => *ty,
        }
    }

    /// Whether this matcher can be used on a block (see [`Matcher::wf`]).
    pub fn valid(&self) -> (r: bool)
        ensures
            r == self.wf(),
    {
        let ty = self.ty();
        if ty.size() == 0 {
            return false;
        }
        match self {
            Matcher::Exact(t, v) => !t.is_float() && !v.ty().is_float(),
            Matcher::Near { ty, .. } => ty.is_float(),
            Matcher::Between { ty, .. } => ty.is_int(),
            Matcher::Every(_) => true,
        }
    }

    fn accepts_value(&self, v: &ScanValue) -> (r: bool)
        requires
            self.wf(),
            v@.kind() == self.slot_type(),
        ensures
            r == self.accepts(v@),
    {
        match self {
            Matcher::Exact(_, t) => v.approx_eq(t),
            Matcher::Near { lo, hi, .. } => {
                let k = float_key_of(v);
                !is_nan_value(v) && *lo <= k && k <= *hi
            },
            Matcher::Between { lo, hi, .. } => {
                let n = value_number(v);
                *lo <= n && n <= *hi
            },
            Matcher::Every(_) => true,
        }
    }
}

/// The number of an integer-typed value.
fn value_number(v: &ScanValue) -> (r: i128)
    requires
        v@.number() is Some,
    ensures
        r as int == v@.number().unwrap(),
{
    match v {
        ScanValue::I8(x) => *x as i128,
        ScanValue::U8(x) => *x as i128,
        ScanValue::I16(x) => *x as i128,
        ScanValue::U16(x) => *x as i128,
        ScanValue::I32(x) => *x as i128,
        ScanValue::U32(x) => *x as i128,
        ScanValue::I64(x) => *x as i128,
        ScanValue::U64(x) => *x as i128,
        _ => 0,
    }
}

fn float_key_of(v: &ScanValue) -> (r: u64)
    requires
        v@.kind().floating(),
    ensures
        r == float_key(v@),
{
    match v {
        ScanValue::F32(b) => {
            let b = *b as u64;
            if b >= 0x8000_0000 {
                0xFFFF_FFFF - b
            } else {
                b + 0x8000_0000
            }
        },
        ScanValue::F64(b) => {
            if *b >= 0x8000_0000_0000_0000 {
                0xFFFF_FFFF_FFFF_FFFF - *b
            } else {
                *b + 0x8000_0000_0000_0000
            }
        },
        _ => 0,
    }
}

fn is_nan_value(v: &ScanValue) -> (r: bool)
    ensures
        r == is_nan(v@),
{
    match v {
        ScanValue::F32(b) => (*b / 0x80_0000) % 0x100 == 0xFF && *b % 0x80_0000 != 0,
        ScanValue::F64(b) => (*b / 0x10_0000_0000_0000) % 0x800 == 0x7FF && *b
            % 0x10_0000_0000_0000 != 0,
        _ => false,
    }
}

/// The candidates the slots `off, off + w, ...` (each ending by `limit`) of
/// a block read at `addr` contribute for one matcher.
pub open spec fn slot_hits(addr: u64, data: Seq<u8>, m: Matcher, off: nat, limit: nat) -> Seq<
    CandidateModel,
>
    decreases limit - off,
{
    let ty = m.slot_type();
    let w = ty.width();
    if w == 0 || off + w > limit {
        seq![]
    } else {
        let v = decode_model(ty, data.subrange(off as int, (off + w) as int));
        let rest = slot_hits(addr, data, m, off + w, limit);
        if m.accepts(v) {
            seq![CandidateModel { addr: (addr + off) as u64, prev: v }] + rest
        } else {
            rest
        }
    }
}

/// What a block contributes for several matchers, matcher by matcher.
pub open spec fn block_hits(addr: u64, data: Seq<u8>, ms: Seq<Matcher>, limit: nat) -> Seq<
    CandidateModel,
>
    decreases ms.len(),
{
    if ms.len() == 0 {
        seq![]
    } else {
        slot_hits(addr, data, ms[0], 0, limit) + block_hits(addr, data, ms.drop_first(), limit)
    }
}

proof fn lemma_models_push(v: Seq<Candidate>, c: Candidate)
    ensures
        models(v.push(c)) == models(v).push(c@),
{
    assert(models(v.push(c)) =~= models(v).push(c@));
}

/// Append the hits of one matcher over the slots of `data[..limit]`.
fn scan_slots(addr: u64, data: &[u8], m: &Matcher, limit: usize, out: &mut Vec<Candidate>)
    requires
        limit <= data@.len(),
        addr + data@.len() <= 0x1_0000_0000_0000_0000,
        m.wf(),
    ensures
        models(final(out)@) == models(old(out)@) + slot_hits(addr, data@, *m, 0, limit as nat),
{
    let ty = m.ty();
    let w = ty.size();
    let mut off: usize = 0;
    assert(models(out@) + slot_hits(addr, data@, *m, 0, limit as nat) =~= models(old(out)@)
        + slot_hits(addr, data@, *m, 0, limit as nat));
    while w <= limit - off
        invariant
            off <= limit,
            limit <= data@.len(),
            addr + data@.len() <= 0x1_0000_0000_0000_0000,
            m.wf(),
            ty == m.slot_type(),
            w == ty.width(),
            models(out@) + slot_hits(addr, data@, *m, off as nat, limit as nat) == models(
                old(out)@,
            ) + slot_hits(addr, data@, *m, 0, limit as nat),
        decreases limit - off,
    {
        let slot = vstd::slice::slice_subrange(data, off, off + w);
        let v = match ScanValue::from_ne_bytes(ty, slot) {
            Some(v) => v,
            None => {
                proof {
                    assert(false);
                }
                return;
            },
        };
        proof {
            assert(slot@.take(w as int) =~= slot@);
            crate::value::lemma_encode_decode(ty, slot@);
        }
        let ghost rest = slot_hits(addr, data@, *m, (off + w) as nat, limit as nat);
        if m.accepts_value(&v) {
            let c = Candidate { addr: addr + off as u64, prev: v };
            proof {
                lemma_models_push(out@, c);
                assert(models(out@).push(c@) + rest =~= models(out@) + (seq![c@] + rest));
            }
            out.push(c);
        }
        off = off + w;
    }
    proof {
        assert(slot_hits(addr, data@, *m, off as nat, limit as nat) =~= Seq::<CandidateModel>::empty());
        assert(models(out@) + Seq::<CandidateModel>::empty() =~= models(out@));
    }
}

/// Test one block read at `addr` against value matchers, appending the hits.
///
/// Only whole 8-byte units of the block are examined, so no value straddles
/// two reads; the result is how far to advance before the next read (the
/// examined length, or the whole block when it is shorter than 8 bytes).
pub fn scan_values_block(
    addr: u64,
    data: &[u8],
    matchers: &[Matcher],
    out: &mut Vec<Candidate>,
) -> (advance: u64)
    requires
        addr + data@.len() <= 0x1_0000_0000_0000_0000,
        forall|i: int| 0 <= i < matchers@.len() ==> (#[trigger] matchers@[i]).wf(),
    ensures
        models(final(out)@) == models(old(out)@) + block_hits(
            addr,
            data@,
            matchers@,
            ((data@.len() as int) / 8 * 8) as nat,
        ),
        advance == if (data@.len() as int) / 8 * 8 > 0 {
            (data@.len() as int) / 8 * 8
        } else {
            data@.len() as int
        },
{
    let n = data.len();
    let usable = n / 8 * 8;
    let ghost limit = usable as nat;
    let mut k: usize = 0;
    assert(matchers@.subrange(0, matchers@.len() as int) =~= matchers@);
    assert(models(out@) + block_hits(addr, data@, matchers@, limit) =~= models(old(out)@)
        + block_hits(addr, data@, matchers@, limit));
    while k < matchers.len()
        invariant
            k <= matchers@.len(),
            usable <= data@.len(),
            limit == usable,
            addr + data@.len() <= 0x1_0000_0000_0000_0000,
            forall|i: int| 0 <= i < matchers@.len() ==> (#[trigger] matchers@[i]).wf(),
            models(out@) + block_hits(
                addr,
                data@,
                matchers@.subrange(k as int, matchers@.len() as int),
                limit,
            ) == models(old(out)@) + block_hits(addr, data@, matchers@, limit),
        decreases matchers@.len() - k,
    {
        let ghost before = models(out@);
        let ghost ms = matchers@.subrange(k as int, matchers@.len() as int);
        scan_slots(addr, data, &matchers[k], usable, out);
        proof {
            assert(ms[0] == matchers@[k as int]);
            assert(ms.drop_first() =~= matchers@.subrange(k + 1, matchers@.len() as int));
            assert(before + block_hits(addr, data@, ms, limit) =~= models(out@) + block_hits(
                addr,
                data@,
                ms.drop_first(),
                limit,
            ));
        }
        k = k + 1;
    }
    proof {
        assert(matchers@.subrange(k as int, matchers@.len() as int) =~= Seq::<Matcher>::empty());
        assert(models(out@) + Seq::<CandidateModel>::empty() =~= models(out@));
    }
    if usable > 0 {
        usable as u64
    } else {
        n as u64
    }
}

/// Store every slot of type `ty` in a block read at `addr` (unknown initial
/// value). The result is how far to advance before the next read: the whole
/// slots examined, or the whole block when it holds no complete slot.
pub fn scan_every_block(addr: u64, data: &[u8], ty: ScanType, out: &mut Vec<Candidate>) -> (advance: u64)
    requires
        addr + data@.len() <= 0x1_0000_0000_0000_0000,
        ty.width() >= 1,
    ensures
        models(final(out)@) == models(old(out)@) + slot_hits(
            addr,
            data@,
            Matcher::Every(ty),
            0,
            data@.len() as nat,
        ),
        advance == if (data@.len() as int) / (ty.width() as int) * (ty.width() as int) > 0 {
            (data@.len() as int) / (ty.width() as int) * (ty.width() as int)
        } else {
            data@.len() as int
        },
{
    let m = Matcher::Every(ty);
    scan_slots(addr, data, &m, data.len(), out);
    let w = ty.size();
    let q = data.len() / w;
    assert(q * w <= data@.len()) by (nonlinear_arith)
        requires
            q == (data@.len() as int) / (w as int),
            w >= 1,
    ;
    let usable = q * w;
    if usable > 0 {
        usable as u64
    } else {
        data.len() as u64
    }
}

/// Whether `pat` matches `data` at `off` (wildcards match any byte).
pub open spec fn pattern_at(data: Seq<u8>, off: int, pat: Seq<Option<u8>>) -> bool {
    &&& 0 <= off
    &&& off + pat.len() <= data.len()
    &&& forall|i: int| 0 <= i < pat.len() ==> (#[trigger] pat[i] matches Some(b) ==> data[off + i] == b)
}

/// The pattern matches lying wholly inside a block read at `addr`, from
/// offset `off` on; each records the concrete bytes it matched.
pub open spec fn pattern_hits(addr: u64, data: Seq<u8>, pat: Seq<Option<u8>>, off: nat) -> Seq<
    CandidateModel,
>
    decreases data.len() - off,
{
    if pat.len() == 0 || off + pat.len() > data.len() {
        seq![]
    } else {
        let rest = pattern_hits(addr, data, pat, off + 1);
        if pattern_at(data, off as int, pat) {
            seq![
                CandidateModel {
                    addr: (addr + off) as u64,
                    prev: ValueModel::Bytes(data.subrange(off as int, (off + pat.len()) as int)),
                },
            ] + rest
        } else {
            rest
        }
    }
}

fn pattern_matches_at(data: &[u8], off: usize, pat: &[Option<u8>]) -> (r: bool)
    requires
        off + pat@.len() <= data@.len(),
    ensures
        r == pattern_at(data@, off as int, pat@),
{
    let mut i: usize = 0;
    while i < pat.len()
        invariant
            i <= pat@.len(),
            off + pat@.len() <= data@.len(),
            data@.len() == data.len(),
            forall|j: int| 0 <= j < i ==> (#[trigger] pat@[j] matches Some(b) ==> data@[off + j] == b),
        decreases pat@.len() - i,
    {
        match pat[i] {
            Some(b) => {
                if data[off + i] != b {
                    return false;
                }
            },
            None => {},
        }
        i = i + 1;
    }
    true
}

/// Find an Array-of-Bytes pattern at every byte offset of a block read at
/// `addr`, appending the hits. The result is how far to advance before the
/// next read so that a match starting near the end of this block is found
/// by the next one (at least one byte).
pub fn scan_pattern_block(
    addr: u64,
    data: &[u8],
    pat: &[Option<u8>],
    out: &mut Vec<Candidate>,
) -> (advance: u64)
    requires
        addr + data@.len() <= 0x1_0000_0000_0000_0000,
    ensures
        models(final(out)@) == models(old(out)@) + pattern_hits(addr, data@, pat@, 0),
        advance == if pat@.len() > 0 && data@.len() >= pat@.len() {
            data@.len() - pat@.len() + 1
        } else if data@.len() > 0 {
            data@.len() as int
        } else {
            1
        },
{
    let n = data.len();
    let len = pat.len();
    assert(models(out@) + pattern_hits(addr, data@, pat@, 0) =~= models(old(out)@)
        + pattern_hits(addr, data@, pat@, 0));
    if len > 0 && len <= n {
        let mut off: usize = 0;
        while off <= n - len
            invariant
                0 < len <= n,
                len == pat@.len(),
                n == data@.len(),
                addr + data@.len() <= 0x1_0000_0000_0000_0000,
                off <= n - len + 1,
                models(out@) + pattern_hits(addr, data@, pat@, off as nat) == models(old(out)@)
                    + pattern_hits(addr, data@, pat@, 0),
            decreases n - len + 1 - off,
        {
            let ghost rest = pattern_hits(addr, data@, pat@, (off + 1) as nat);
            if pattern_matches_at(data, off, pat) {
                let bytes = vstd::slice::slice_to_vec(vstd::slice::slice_subrange(data, off, off + len));
                let c = Candidate { addr: addr + off as u64, prev: ScanValue::Bytes(bytes) };
                proof {
                    lemma_models_push(out@, c);
                    assert(models(out@).push(c@) + rest =~= models(out@) + (seq![c@] + rest));
                }
                out.push(c);
            }
            off = off + 1;
        }
        proof {
            assert(pattern_hits(addr, data@, pat@, off as nat) =~= Seq::<CandidateModel>::empty());
        }
    } else {
        proof {
            assert(pattern_hits(addr, data@, pat@, 0) =~= Seq::<CandidateModel>::empty());
        }
    }
    assert(models(out@) + Seq::<CandidateModel>::empty() =~= models(out@));
    if len > 0 && len <= n {
        (n - len + 1) as u64
    } else if n > 0 {
        n as u64
    } else {
        1
    }
}

/// The two sides of a range `a..b`: the trimmed text split at its first
/// `..`, each side trimmed.
pub open spec fn range_sides(value: Seq<char>) -> Option<(Seq<char>, Seq<char>)> {
    let t = trim(value);
    match first_index(t, ".."@) {
        Some(i) => Some((trim(t.subrange(0, i)), trim(t.subrange(i + 2, t.len() as int)))),
        None => None,
    }
}

/// The bounds of an integer range `a..b`: both sides are integer numerals.
pub open spec fn range_bounds(value: Seq<char>) -> Option<(int, int)> {
    match range_sides(value) {
        Some((a, b)) => match (
            parse_int_spec(a, 10, i64::MIN as int, u64::MAX as int),
            parse_int_spec(b, 10, i64::MIN as int, u64::MAX as int),
        ) {
            (Some(lo), Some(hi)) => Some((lo, hi)),
            _ => None,
        },
        None => None,
    }
}

/// What a value scan looks for in one type.
pub enum Plan {
    /// Slots equal to this value.
    Equal(ScanType, ValueModel),
    /// Integer slots whose number lies in `lo..=hi`.
    Within(ScanType, int, int),
}

/// The plan of a value scan for `value` over `types`, in order: for an
/// integer range `a..b`, every integer type looks for numbers in it; other
/// non-floating types look for the value they can represent, and types that
/// cannot represent it are skipped. Floating-point types are left to the
/// caller's [`Matcher::Near`] ranges.
pub open spec fn scan_plan_of(value: Seq<char>, types: Seq<ScanType>) -> Seq<Plan>
    decreases types.len(),
{
    if types.len() == 0 {
        seq![]
    } else {
        let t = types.last();
        let rest = scan_plan_of(value, types.drop_last());
        if t.floating() {
            rest
        } else if t.integral() && range_bounds(value) is Some {
            rest.push(Plan::Within(t, range_bounds(value).unwrap().0, range_bounds(value).unwrap().1))
        } else {
            match crate::value::parse_model(t, value) {
                Some(v) => rest.push(Plan::Equal(t, v)),
                None => rest,
            }
        }
    }
}

/// Whether matcher `m` carries out plan `p`.
pub open spec fn carries(m: Matcher, p: Plan) -> bool {
    match p {
        Plan::Equal(t, v) => m matches Matcher::Exact(u, w) && u == t && w@ == v,
        Plan::Within(t, lo, hi) => m matches Matcher::Between { ty, lo: l, hi: h } && ty == t
            && l == lo && h == hi,
    }
}

/// The two sides of a range `a..b`, if `value` has a `..`.
pub fn split_range(value: &str) -> (r: Option<(String, String)>)
    ensures
        match r {
            Some((a, b)) => range_sides(value@) == Some((a@, b@)),
            None => range_sides(value@) is None,
        },
{
    let t = trimmed(chars_of(value).as_slice());
    let dots = lit("..");
    proof {
        reveal_strlit("..");
    }
    match find_first(t.as_slice(), dots.as_slice()) {
        Some(i) => {
            assert(dots@.len() == 2);
            let n = t.len();
            assert(i + 2 <= n);
            let a = trimmed(vstd::slice::slice_subrange(t.as_slice(), 0, i));
            let b = trimmed(vstd::slice::slice_subrange(t.as_slice(), i + 2, n));
            Some((string_of(a.as_slice()), string_of(b.as_slice())))
        },
        None => None,
    }
}

/// The bounds of an integer range scan, if `value` is one.
pub fn range_of(value: &str) -> (r: Option<(i128, i128)>)
    ensures
        match r {
            Some((lo, hi)) => range_bounds(value@) == Some((lo as int, hi as int)),
            None => range_bounds(value@) is None,
        },
{
    match split_range(value) {
        Some((a, b)) => {
            let lo = parse_int(chars_of(a.as_str()).as_slice(), 10, i64::MIN as i128, u64::MAX as i128);
            let hi = parse_int(chars_of(b.as_str()).as_slice(), 10, i64::MIN as i128, u64::MAX as i128);
            match (lo, hi) {
                (Some(x), Some(y)) => Some((x, y)),
                _ => None,
            }
        },
        None => None,
    }
}

/// The matchers of a value scan for `value` over `types`: one per entry of
/// [`scan_plan_of`], in order (floating-point types are matched with
/// [`Matcher::Near`] ranges the caller derives).
pub fn exact_matchers(value: &str, types: &[ScanType]) -> (r: Vec<Matcher>)
    ensures
        r@.len() == scan_plan_of(value@, types@).len(),
        forall|k: int| 0 <= k < r@.len() ==> carries(#[trigger] r@[k], scan_plan_of(value@, types@)[k]),
{
    let range = range_of(value);
    let mut out: Vec<Matcher> = Vec::new();
    let mut i: usize = 0;
    while i < types.len()
        invariant
            i <= types@.len(),
            match range {
                Some((lo, hi)) => range_bounds(value@) == Some((lo as int, hi as int)),
                None => range_bounds(value@) is None,
            },
            out@.len() == scan_plan_of(value@, types@.subrange(0, i as int)).len(),
            forall|k: int|
                0 <= k < out@.len() ==> carries(
                    #[trigger] out@[k],
                    scan_plan_of(value@, types@.subrange(0, i as int))[k],
                ),
        decreases types@.len() - i,
    {
        let t = types[i];
        proof {
            assert(types@.subrange(0, i + 1).drop_last() =~= types@.subrange(0, i as int));
            assert(types@.subrange(0, i + 1).last() == t);
        }
        if !t.is_float() {
            match range {
                Some((lo, hi)) if t.is_int() => {
                    out.push(Matcher::Between { ty: t, lo, hi });
                },
                _ => {
                    match t.parse(value) {
                        Some(v) => {
                            out.push(Matcher::Exact(t, v));
                        },
                        None => {},
                    }
                },
            }
        }
        i = i + 1;
    }
    assert(types@.subrange(0, types@.len() as int) =~= types@);
    out
}

/// What the blocks of a first scan are tested with.
pub enum BlockScan {
    /// Value matchers (exact values, integer ranges, floating-point ranges).
    Values(Vec<Matcher>),
    /// Every slot of one type (unknown initial value).
    Every(ScanType),
    /// An Array-of-Bytes pattern; `None` is a wildcard byte.
    Pattern(Vec<Option<u8>>),
}

impl BlockScan {
    pub open spec fn wf(&self) -> bool {
        match self {
            BlockScan::Values(ms) => forall|i: int| 0 <= i < ms@.len() ==> (#[trigger] ms@[i]).wf(),
            BlockScan::Every(ty) => ty.width() >= 1,
            BlockScan::Pattern(_) => true,
        }
    }

    /// The candidates a block `data` read at `addr` contributes.
    pub open spec fn hits(&self, addr: u64, data: Seq<u8>) -> Seq<CandidateModel> {
        match self {
            BlockScan::Values(ms) => block_hits(addr, data, ms@, ((data.len() as int) / 8 * 8) as nat),
            BlockScan::Every(ty) => slot_hits(addr, data, Matcher::Every(*ty), 0, data.len()),
            BlockScan::Pattern(p) => pattern_hits(addr, data, p@, 0),
        }
    }

    /// How far a block of `n > 0` bytes moves the scan on: past the slots
    /// examined (all of a block too short to hold one).
    pub open spec fn step(&self, n: nat) -> nat {
        match self {
            BlockScan::Values(_) => if n / 8 * 8 > 0 {
                n / 8 * 8
            } else {
                n
            },
            BlockScan::Every(ty) => if n / ty.width() * ty.width() > 0 {
                n / ty.width() * ty.width()
            } else {
                n
            },
            BlockScan::Pattern(p) => if p@.len() > 0 && n >= p@.len() {
                (n - p@.len() + 1) as nat
            } else {
                n
            },
        }
    }

    /// Test one block, appending its hits; how far to move on.
    pub fn scan_block(&self, addr: u64, data: &[u8], out: &mut Vec<Candidate>) -> (advance: u64)
        requires
            self.wf(),
            data@.len() > 0,
            addr + data@.len() <= 0x1_0000_0000_0000_0000,
        ensures
            models(final(out)@) == models(old(out)@) + self.hits(addr, data@),
            advance == self.step(data@.len()),
            1 <= advance <= data@.len(),
    {
        match self {
            BlockScan::Values(ms) => {
                let a = scan_values_block(addr, data, ms.as_slice(), out);
                assert((data@.len() as int) / 8 * 8 <= data@.len());
                a
            },
            BlockScan::Every(ty) => {
                let a = scan_every_block(addr, data, *ty, out);
                proof {
                    let w = ty.width() as int;
                    let n = data@.len() as int;
                    assert(n / w * w <= n) by (nonlinear_arith)
                        requires
                            w >= 1,
                            n >= 0,
                    ;
                }
                a
            },
            BlockScan::Pattern(p) => scan_pattern_block(addr, data, p.as_slice(), out),
        }
    }
}

/// The bytes asked for at `addr` while scanning up to `end`.
pub open spec fn want_at(addr: u64, end: u64) -> nat {
    if end - addr < CHUNK {
        (end - addr) as nat
    } else {
        CHUNK as nat
    }
}

/// The hits of scanning `[addr, end)` block by block, given the results of
/// its reads in order (`log`): each read asks for up to [`CHUNK`] bytes at
/// the current address; a read that fails, gives nothing or gives more than
/// it asked for is skipped past; otherwise the block's hits count and the
/// scan moves on by the block's step. `None` where `log` does not fit the
/// reads such a scan makes.
pub open spec fn item_hits(job: BlockScan, addr: u64, end: u64, log: Seq<Option<Seq<u8>>>) -> Option<
    Seq<CandidateModel>,
>
    decreases log.len(),
{
    if addr >= end {
        if log.len() == 0 {
            Some(seq![])
        } else {
            None
        }
    } else if log.len() == 0 {
        None
    } else {
        let want = want_at(addr, end);
        match log[0] {
            Some(d) => if 0 < d.len() <= want {
                match item_hits(job, (addr + job.step(d.len())) as u64, end, log.drop_first()) {
                    Some(rest) => Some(job.hits(addr, d) + rest),
                    None => None,
                }
            } else {
                item_hits(job, (addr + want) as u64, end, log.drop_first())
            },
            None => item_hits(job, (addr + want) as u64, end, log.drop_first()),
        }
    }
}

/// Where scanning `[addr, end)` block by block asks to read, in order,
/// given the results of its reads (`log`): each ask is the current address
/// and [`want_at`] bytes, and the scan moves on as in [`item_hits`].
pub open spec fn item_asks(job: BlockScan, addr: u64, end: u64, log: Seq<Option<Seq<u8>>>) -> Seq<
    (u64, usize),
>
    decreases log.len(),
{
    if addr >= end || log.len() == 0 {
        seq![]
    } else {
        let want = want_at(addr, end);
        let next: u64 = match log[0] {
            Some(d) => if 0 < d.len() <= want {
                (addr + job.step(d.len())) as u64
            } else {
                (addr + want) as u64
            },
            None => (addr + want) as u64,
        };
        seq![(addr, want as usize)] + item_asks(job, next, end, log.drop_first())
    }
}

/// The bytes each read gave, in order.
pub open spec fn read_views(rets: Seq<Option<Vec<u8>>>) -> Seq<Option<Seq<u8>>> {
    rets.map_values(
        |r: Option<Vec<u8>>|
            match r {
                Some(v) => Some(v@),
                None => None,
            },
    )
}

/// Whether `rets` are results that `read` may give for the reads `asks`,
/// one for one.
pub open spec fn answered<F: Fn(u64, usize) -> Option<Vec<u8>>>(
    read: F,
    asks: Seq<(u64, usize)>,
    rets: Seq<Option<Vec<u8>>>,
) -> bool {
    asks.len() == rets.len() && forall|k: int|
        0 <= k < rets.len() ==> call_ensures(read, (asks[k].0, asks[k].1), #[trigger] rets[k])
}

/// Whether `h` is what scanning `[start, end)` through `read` gives: for
/// results `rets` that `read` may give at the addresses and lengths the
/// scan asks for ([`item_asks`]), `h` is the scan's hits ([`item_hits`]).
pub open spec fn item_gives<F: Fn(u64, usize) -> Option<Vec<u8>>>(
    read: F,
    job: BlockScan,
    start: u64,
    end: u64,
    h: Seq<CandidateModel>,
) -> bool {
    exists|rets: Seq<Option<Vec<u8>>>|
        #[trigger] item_hits(job, start, end, read_views(rets)) == Some(h) && answered(
            read,
            item_asks(job, start, end, read_views(rets)),
            rets,
        )
}

/// Scan the work item `[start, end)`: read it block by block through
/// `read(addr, len)` and append the hits. The reads are made where
/// [`item_asks`] says, and the hits are those of [`item_hits`] for the
/// results the reads gave.
#[verifier::rlimit(60)]
#[verifier::spinoff_prover]
pub fn scan_item<F: Fn(u64, usize) -> Option<Vec<u8>>>(
    start: u64,
    end: u64,
    job: &BlockScan,
    read: &F,
    out: &mut Vec<Candidate>,
)
    requires
        job.wf(),
        forall|a: u64, n: usize| call_requires(*read, (a, n)),
    ensures
        exists|h: Seq<CandidateModel>|
            models(final(out)@) == models(old(out)@) + h && #[trigger] item_gives(
                *read,
                *job,
                start,
                end,
                h,
            ),
{
    let ghost mut rets: Seq<Option<Vec<u8>>> = seq![];
    let ghost mut asks: Seq<(u64, usize)> = seq![];
    let ghost mut done: Seq<Option<Seq<u8>>> = seq![];
    let ghost mut acc: Seq<CandidateModel> = seq![];
    let mut addr = start;
    if addr >= end {
        assert(read_views(rets) =~= done);
        assert(item_hits(*job, start, end, read_views(rets)) == Some(acc));
        assert(answered(*read, item_asks(*job, start, end, read_views(rets)), rets));
        assert(models(out@) =~= models(old(out)@) + acc);
        assert(item_gives(*read, *job, start, end, acc));
        return;
    }
    while addr < end
        invariant
            job.wf(),
            forall|a: u64, n: usize| call_requires(*read, (a, n)),
            start < end,
            start <= addr,
            addr <= end,
            models(out@) == models(old(out)@) + acc,
            done == read_views(rets),
            asks.len() == rets.len(),
            forall|k: int|
                0 <= k < rets.len() ==> call_ensures(*read, (asks[k].0, asks[k].1), #[trigger] rets[k]),
            forall|l: Seq<Option<Seq<u8>>>|
                #[trigger] item_hits(*job, addr, end, l) is Some ==> item_hits(
                    *job,
                    start,
                    end,
                    done + l,
                ) == Some(acc + item_hits(*job, addr, end, l).unwrap()),
            forall|l: Seq<Option<Seq<u8>>>|
                item_asks(*job, start, end, done + l) == asks + #[trigger] item_asks(
                    *job,
                    addr,
                    end,
                    l,
                ),
        decreases end - addr,
    {
        let want: usize = if end - addr < CHUNK as u64 {
            (end - addr) as usize
        } else {
            CHUNK
        };
        let r = read(addr, want);
        let ghost rg = r;
        let ghost rv: Option<Seq<u8>> = match &r {
            Some(d) => Some(d@),
            None => None,
        };
        let ghost old_addr = addr;
        let ghost old_done = done;
        let ghost old_acc = acc;
        let ghost old_rets = rets;
        let ghost old_asks = asks;
        let ghost before = models(out@);
        let mut next = addr + want as u64;
        let mut took = false;
        match r {
            Some(d) => {
                if d.len() > 0 && d.len() <= want {
                    let adv = job.scan_block(addr, d.as_slice(), out);
                    next = addr + adv;
                    took = true;
                }
            },
            None => {},
        }
        proof {
            let hb: Seq<CandidateModel> = if took {
                job.hits(old_addr, rv.unwrap())
            } else {
                seq![]
            };
            assert(models(out@) == before + hb);
            assert forall|l: Seq<Option<Seq<u8>>>|
                #[trigger] item_hits(*job, next, end, l) is Some implies item_hits(
                    *job,
                    start,
                    end,
                    old_done.push(rv) + l,
                ) == Some(old_acc + hb + item_hits(*job, next, end, l).unwrap()) by {
                let l0 = seq![rv] + l;
                assert(l0.drop_first() =~= l);
                assert(l0[0] == rv);
                assert(item_hits(*job, old_addr, end, l0) == Some(
                    hb + item_hits(*job, next, end, l).unwrap(),
                ));
                assert(old_done.push(rv) + l =~= old_done + l0);
                assert(old_acc + (hb + item_hits(*job, next, end, l).unwrap()) =~= old_acc + hb
                    + item_hits(*job, next, end, l).unwrap());
            }
            assert forall|l: Seq<Option<Seq<u8>>>|
                item_asks(*job, start, end, old_done.push(rv) + l) == old_asks.push(
                    (old_addr, want),
                ) + #[trigger] item_asks(*job, next, end, l) by {
                let l0 = seq![rv] + l;
                assert(l0.drop_first() =~= l);
                assert(l0[0] == rv);
                assert(item_asks(*job, old_addr, end, l0) == seq![(old_addr, want)] + item_asks(
                    *job,
                    next,
                    end,
                    l,
                ));
                assert(old_done.push(rv) + l =~= old_done + l0);
                assert(old_asks + (seq![(old_addr, want)] + item_asks(*job, next, end, l))
                    =~= old_asks.push((old_addr, want)) + item_asks(*job, next, end, l));
            }
            rets = old_rets.push(rg);
            asks = old_asks.push((old_addr, want));
            done = old_done.push(rv);
            acc = old_acc + hb;
            assert(read_views(rets) =~= done);
            assert forall|k: int| 0 <= k < rets.len() implies call_ensures(
                *read,
                (asks[k].0, asks[k].1),
                #[trigger] rets[k],
            ) by {
                if k < old_rets.len() {
                    assert(rets[k] == old_rets[k]);
                    assert(asks[k] == old_asks[k]);
                }
            }
            assert(models(out@) =~= models(old(out)@) + acc);
        }
        addr = next;
    }
    proof {
        let e: Seq<Option<Seq<u8>>> = seq![];
        assert(item_hits(*job, addr, end, e) == Some(Seq::<CandidateModel>::empty()));
        assert(item_asks(*job, addr, end, e) == Seq::<(u64, usize)>::empty());
        assert(done + e =~= done);
        assert(acc + Seq::<CandidateModel>::empty() =~= acc);
        assert(asks + Seq::<(u64, usize)>::empty() =~= asks);
        assert(item_hits(*job, start, end, read_views(rets)) == Some(acc));
        assert(item_asks(*job, start, end, read_views(rets)) == asks);
        assert(answered(*read, item_asks(*job, start, end, read_views(rets)), rets));
        assert(item_gives(*read, *job, start, end, acc));
    }
}

/// Whether candidate `c` is a slot that one of the matchers `ms` accepts,
/// decoded as that matcher's type.
pub open spec fn found_by(ms: Seq<Matcher>, c: CandidateModel) -> bool {
    exists|i: int|
        0 <= i < ms.len() && (#[trigger] ms[i]).accepts(c.prev) && (!(ms[i].slot_type() is Bytes)
            ==> c.prev.kind() == ms[i].slot_type())
}

proof fn lemma_slot_hits_found(addr: u64, data: Seq<u8>, ms: Seq<Matcher>, i: int, off: nat, limit: nat)
    requires
        0 <= i < ms.len(),
    ensures
        forall|k: int|
            0 <= k < slot_hits(addr, data, ms[i], off, limit).len() ==> found_by(
                ms,
                #[trigger] slot_hits(addr, data, ms[i], off, limit)[k],
            ),
    decreases limit - off,
{
    let m = ms[i];
    let ty = m.slot_type();
    let w = ty.width();
    if !(w == 0 || off + w > limit) {
        lemma_slot_hits_found(addr, data, ms, i, off + w, limit);
        let v = decode_model(ty, data.subrange(off as int, (off + w) as int));
        let rest = slot_hits(addr, data, m, off + w, limit);
        let h = slot_hits(addr, data, m, off, limit);
        if m.accepts(v) {
            assert forall|k: int| 0 <= k < h.len() implies found_by(ms, #[trigger] h[k]) by {
                if k == 0 {
                    assert(h[0].prev == v);
                    assert(ms[i].accepts(h[0].prev));
                } else {
                    assert(h[k] == rest[k - 1]);
                }
            }
        }
    }
}

proof fn lemma_block_hits_found(addr: u64, data: Seq<u8>, ms: Seq<Matcher>, j: int, limit: nat)
    requires
        0 <= j <= ms.len(),
    ensures
        forall|k: int|
            0 <= k < block_hits(addr, data, ms.subrange(j, ms.len() as int), limit).len()
                ==> found_by(
                ms,
                #[trigger] block_hits(addr, data, ms.subrange(j, ms.len() as int), limit)[k],
            ),
    decreases ms.len() - j,
{
    let t = ms.subrange(j, ms.len() as int);
    if j < ms.len() {
        lemma_block_hits_found(addr, data, ms, j + 1, limit);
        lemma_slot_hits_found(addr, data, ms, j, 0, limit);
        assert(t.drop_first() =~= ms.subrange(j + 1, ms.len() as int));
        assert(t[0] == ms[j]);
        let a = slot_hits(addr, data, ms[j], 0, limit);
        let b = block_hits(addr, data, ms.subrange(j + 1, ms.len() as int), limit);
        let h = block_hits(addr, data, t, limit);
        assert(h == a + b);
        assert forall|k: int| 0 <= k < h.len() implies found_by(ms, #[trigger] h[k]) by {
            if k < a.len() {
                assert(h[k] == a[k]);
            } else {
                assert(h[k] == b[k - a.len()]);
            }
        }
    }
}

/// Every candidate a value scan finds in a work item is a slot that one of
/// the scan's matchers accepts, decoded as that matcher's type (for a typed
/// matcher): an exact value equal to the target, an integer in the range,
/// a floating-point value in the caller's interval.
pub proof fn law_value_hits_found(job: BlockScan, start: u64, end: u64, log: Seq<Option<Seq<u8>>>)
    requires
        job is Values,
    ensures
        item_hits(job, start, end, log) matches Some(h) ==> forall|k: int|
            0 <= k < h.len() ==> found_by(job->Values_0@, #[trigger] h[k]),
    decreases log.len(),
{
    let ms = job->Values_0@;
    if start < end && log.len() > 0 {
        let want = want_at(start, end);
        match log[0] {
            Some(d) => {
                if 0 < d.len() <= want {
                    let next = (start + job.step(d.len())) as u64;
                    law_value_hits_found(job, next, end, log.drop_first());
                    let lim = ((d.len() as int) / 8 * 8) as nat;
                    lemma_block_hits_found(start, d, ms, 0, lim);
                    assert(ms.subrange(0, ms.len() as int) =~= ms);
                    match item_hits(job, next, end, log.drop_first()) {
                        Some(rest) => {
                            let a = job.hits(start, d);
                            let h = a + rest;
                            assert forall|k: int| 0 <= k < h.len() implies found_by(
                                ms,
                                #[trigger] h[k],
                            ) by {
                                if k < a.len() {
                                    assert(h[k] == a[k]);
                                } else {
                                    assert(h[k] == rest[k - a.len()]);
                                }
                            }
                        },
                        None => {},
                    }
                } else {
                    law_value_hits_found(job, (start + want) as u64, end, log.drop_first());
                }
            },
            None => {
                law_value_hits_found(job, (start + want) as u64, end, log.drop_first());
            },
        }
    }
}

/// Whether `h` is what scanning the work items in order through `read`
/// gives: the items' hits ([`item_gives`]), one after another.
pub open spec fn items_give<F: Fn(u64, usize) -> Option<Vec<u8>>>(
    read: F,
    job: BlockScan,
    items: Seq<(u64, u64)>,
    h: Seq<CandidateModel>,
) -> bool {
    exists|hs: Seq<Seq<CandidateModel>>|
        #![trigger hs.flatten()]
        hs.len() == items.len() && (forall|i: int|
            0 <= i < items.len() ==> item_gives(read, job, items[i].0, items[i].1, #[trigger] hs[i]))
            && h == hs.flatten()
}

/// Scan the work items in order, appending their hits.
pub fn scan_items<F: Fn(u64, usize) -> Option<Vec<u8>>>(
    items: &[(u64, u64)],
    job: &BlockScan,
    read: &F,
    out: &mut Vec<Candidate>,
)
    requires
        job.wf(),
        forall|a: u64, n: usize| call_requires(*read, (a, n)),
    ensures
        exists|h: Seq<CandidateModel>|
            models(final(out)@) == models(old(out)@) + h && #[trigger] items_give(
                *read,
                *job,
                items@,
                h,
            ),
{
    let ghost mut hs: Seq<Seq<CandidateModel>> = seq![];
    let mut i: usize = 0;
    assert(hs.flatten() =~= Seq::<CandidateModel>::empty());
    assert(models(out@) =~= models(old(out)@) + hs.flatten());
    while i < items.len()
        invariant
            job.wf(),
            forall|a: u64, n: usize| call_requires(*read, (a, n)),
            i <= items@.len(),
            hs.len() == i,
            forall|k: int|
                0 <= k < i ==> item_gives(*read, *job, items@[k].0, items@[k].1, #[trigger] hs[k]),
            models(out@) == models(old(out)@) + hs.flatten(),
        decreases items@.len() - i,
    {
        let ghost before = models(out@);
        let (s, e) = items[i];
        scan_item(s, e, job, read, out);
        proof {
            let h = choose|h: Seq<CandidateModel>|
                models(out@) == before + h && #[trigger] item_gives(*read, *job, s, e, h);
            hs.lemma_flatten_push(h);
            let old_hs = hs;
            hs = hs.push(h);
            assert forall|k: int| 0 <= k < i + 1 implies item_gives(
                *read,
                *job,
                items@[k].0,
                items@[k].1,
                #[trigger] hs[k],
            ) by {
                if k < i {
                    assert(hs[k] == old_hs[k]);
                }
            }
            assert(models(out@) =~= models(old(out)@) + hs.flatten());
        }
        i = i + 1;
    }
    assert(items_give(*read, *job, items@, hs.flatten()));
}

/// Matchers of `ms` that can be used on a block, in order.
pub open spec fn usable(ms: Seq<Matcher>) -> Seq<Matcher>
    decreases ms.len(),
{
    if ms.len() == 0 {
        seq![]
    } else if ms.last().wf() {
        usable(ms.drop_last()).push(ms.last())
    } else {
        usable(ms.drop_last())
    }
}

proof fn lemma_usable_wf(ms: Seq<Matcher>)
    ensures
        forall|i: int| 0 <= i < usable(ms).len() ==> (#[trigger] usable(ms)[i]).wf(),
    decreases ms.len(),
{
    if ms.len() > 0 {
        let t = usable(ms.drop_last());
        lemma_usable_wf(ms.drop_last());
        if ms.last().wf() {
            assert forall|i: int| 0 <= i < t.push(ms.last()).len() implies (#[trigger] t.push(
                ms.last(),
            )[i]).wf() by {
                if i < t.len() {
                    assert(t.push(ms.last())[i] == t[i]);
                }
            }
        }
    }
}

/// The block test of a value scan for `value` over `types`: the matchers of
/// [`exact_matchers`], then the floating-point matchers `near` that the
/// caller derived, keeping those that can be used on a block.
pub fn value_job(value: &str, types: &[ScanType], near: Vec<Matcher>) -> (r: BlockScan)
    ensures
        r.wf(),
        r matches BlockScan::Values(ms) && exists|ex: Seq<Matcher>|
            ex.len() == scan_plan_of(value@, types@).len() && (forall|k: int|
                0 <= k < ex.len() ==> carries(#[trigger] ex[k], scan_plan_of(value@, types@)[k]))
                && ms@ == usable(ex + near@),
{
    let mut all = exact_matchers(value, types);
    let ghost ex = all@;
    let mut near = near;
    all.append(&mut near);
    let ghost joined = all@;
    let mut ms: Vec<Matcher> = Vec::new();
    let ghost mut i: int = 0;
    assert(joined.subrange(0, 0) =~= Seq::<Matcher>::empty());
    assert(joined.subrange(0, joined.len() as int) =~= joined);
    while all.len() > 0
        invariant
            0 <= i <= joined.len(),
            all@ == joined.subrange(i, joined.len() as int),
            ms@ == usable(joined.subrange(0, i)),
        decreases all@.len(),
    {
        proof {
            assert(joined.subrange(0, i + 1).drop_last() =~= joined.subrange(0, i));
            assert(joined.subrange(0, i + 1).last() == joined[i]);
        }
        let m = all.remove(0);
        if m.valid() {
            ms.push(m);
        }
        proof {
            i = i + 1;
            assert(all@ =~= joined.subrange(i, joined.len() as int));
        }
    }
    assert(joined.subrange(0, joined.len() as int) =~= joined);
    proof {
        lemma_usable_wf(joined);
    }
    BlockScan::Values(ms)
}

/// Whether candidates are in ascending address order.
pub open spec fn addr_sorted(s: Seq<CandidateModel>) -> bool {
    forall|i: int, j: int| 0 <= i <= j < s.len() ==> (#[trigger] s[i]).addr <= (#[trigger] s[j]).addr
}

/// Merge two address-sorted candidate lists (stable: on equal addresses the
/// left list comes first).
fn merge(a: &[Candidate], b: &[Candidate]) -> (r: Vec<Candidate>)
    requires
        addr_sorted(models(a@)),
        addr_sorted(models(b@)),
    ensures
        addr_sorted(models(r@)),
        models(r@).to_multiset() == models(a@).to_multiset().add(models(b@).to_multiset()),
{
    broadcast use vstd::seq_lib::group_to_multiset_ensures, vstd::multiset::group_multiset_axioms;

    let mut out: Vec<Candidate> = Vec::new();
    let mut i: usize = 0;
    let mut j: usize = 0;
    let ghost ma = models(a@);
    let ghost mb = models(b@);
    assert(ma.take(0) =~= Seq::<CandidateModel>::empty());
    assert(mb.take(0) =~= Seq::<CandidateModel>::empty());
    assert(models(out@) =~= Seq::<CandidateModel>::empty());
    while i < a.len() || j < b.len()
        invariant
            i <= a@.len(),
            j <= b@.len(),
            ma == models(a@),
            mb == models(b@),
            addr_sorted(ma),
            addr_sorted(mb),
            addr_sorted(models(out@)),
            models(out@).to_multiset() == ma.take(i as int).to_multiset().add(
                mb.take(j as int).to_multiset(),
            ),
            models(out@).len() > 0 && i < a@.len() ==> models(out@).last().addr <= a@[i as int].addr,
            models(out@).len() > 0 && j < b@.len() ==> models(out@).last().addr <= b@[j as int].addr,
        decreases a@.len() + b@.len() - i - j,
    {
        let ghost before = models(out@);
        let take_a = j >= b.len() || (i < a.len() && a[i].addr <= b[j].addr);
        let c = if take_a {
            a[i].duplicate()
        } else {
            b[j].duplicate()
        };
        proof {
            lemma_models_push(out@, c);
        }
        out.push(c);
        proof {
            let now = models(out@);
            assert(now == before.push(c@));
            assert forall|x: int, y: int| 0 <= x <= y < now.len() implies (#[trigger] now[x]).addr
                <= (#[trigger] now[y]).addr by {
                if y == now.len() - 1 && x < y {
                    assert(now[x] == before[x]);
                    assert(before[x].addr <= before.last().addr);
                }
            }
            if take_a {
                assert(ma.take(i + 1) =~= ma.take(i as int).push(ma[i as int]));
                assert(ma[i as int] == c@);
                vstd::seq_lib::to_multiset_build(before, c@);
                vstd::seq_lib::to_multiset_build(ma.take(i as int), c@);
                assert(now.to_multiset() == before.to_multiset().insert(c@));
                assert(ma.take(i + 1).to_multiset() == ma.take(i as int).to_multiset().insert(c@));
                assert(now.to_multiset() =~= ma.take(i + 1).to_multiset().add(
                    mb.take(j as int).to_multiset(),
                ));
                if i + 1 < a@.len() {
                    assert(ma[i as int].addr <= ma[i + 1].addr);
                }
            } else {
                assert(mb.take(j + 1) =~= mb.take(j as int).push(mb[j as int]));
                assert(mb[j as int] == c@);
                vstd::seq_lib::to_multiset_build(before, c@);
                vstd::seq_lib::to_multiset_build(mb.take(j as int), c@);
                assert(now.to_multiset() == before.to_multiset().insert(c@));
                assert(mb.take(j + 1).to_multiset() == mb.take(j as int).to_multiset().insert(c@));
                assert(now.to_multiset() =~= ma.take(i as int).to_multiset().add(
                    mb.take(j + 1).to_multiset(),
                ));
                if j + 1 < b@.len() {
                    assert(mb[j as int].addr <= mb[j + 1].addr);
                }
            }
        }
        if take_a {
            i = i + 1;
        } else {
            j = j + 1;
        }
    }
    assert(ma.take(a@.len() as int) =~= ma);
    assert(mb.take(b@.len() as int) =~= mb);
    out
}

/// The candidates sorted by address (stable merge sort).
pub fn sort_by_addr(v: &[Candidate]) -> (r: Vec<Candidate>)
    ensures
        addr_sorted(models(r@)),
        models(r@).to_multiset() == models(v@).to_multiset(),
    decreases v@.len(),
{
    broadcast use vstd::seq_lib::group_to_multiset_ensures, vstd::multiset::group_multiset_axioms;

    let n = v.len();
    if n <= 1 {
        let mut out: Vec<Candidate> = Vec::new();
        if n == 1 {
            let c = v[0].duplicate();
            out.push(c);
            assert(models(out@) =~= models(v@));
        } else {
            assert(models(out@) =~= models(v@));
        }
        return out;
    }
    let mid = n / 2;
    let left = sort_by_addr(vstd::slice::slice_subrange(v, 0, mid));
    let right = sort_by_addr(vstd::slice::slice_subrange(v, mid, n));
    let r = merge(left.as_slice(), right.as_slice());
    proof {
        let m = models(v@);
        assert(models(v@.subrange(0, mid as int)) =~= m.subrange(0, mid as int));
        assert(models(v@.subrange(mid as int, n as int)) =~= m.subrange(mid as int, n as int));
        assert(m =~= m.subrange(0, mid as int) + m.subrange(mid as int, n as int));
        vstd::seq_lib::lemma_multiset_commutative(
            m.subrange(0, mid as int),
            m.subrange(mid as int, n as int),
        );
    }
    r
}

/// `float_key` with negative zero placed on positive zero, so that equal
/// numbers get equal keys.
pub open spec fn zero_key(v: ValueModel) -> nat {
    match v {
        ValueModel::F32(b) => if b == 0x8000_0000 {
            float_key(ValueModel::F32(0))
        } else {
            float_key(v)
        },
        ValueModel::F64(b) => if b == 0x8000_0000_0000_0000 {
            float_key(ValueModel::F64(0))
        } else {
            float_key(v)
        },
        _ => float_key(v),
    }
}

/// Whether `a` is larger than `b` when both are read as `f64` (values of
/// one type): integers compare at their nearest `f64`, floating-point values
/// by value with NaN comparing false, and byte patterns (NaN) never.
pub open spec fn f64_greater(a: ValueModel, b: ValueModel) -> bool {
    match (a.number(), b.number()) {
        (Some(x), Some(y)) => int_as_f64(x) > int_as_f64(y),
        _ => a.kind().floating() && b.kind() == a.kind() && !is_nan(a) && !is_nan(b) && zero_key(a)
            > zero_key(b),
    }
}

/// The operand of greater / less as an integer numeral (trimmed), in the
/// range of the integer types.
pub open spec fn int_operand(operand: Option<Seq<char>>) -> Option<int> {
    match operand {
        Some(s) => parse_int_spec(trim(s), 10, i64::MIN as int, u64::MAX as int),
        None => None,
    }
}

/// Whether deciding `how` for a candidate of type `ty` takes floating-point
/// arithmetic: greater / less compare against the operand read as `f64`
/// (decided here, and false, for a byte pattern or without an operand; and
/// decided here for an integer candidate and an integer operand, whose `f64`
/// values are their nearest grid points), and (in)equality of
/// floating-point values uses a tolerance.
pub open spec fn needs_float(how: NextScan, ty: ScanType, operand: Option<Seq<char>>) -> bool {
    ((how is Gt || how is Lt) && !(ty is Bytes) && operand is Some && !(ty.integral()
        && int_operand(operand) is Some)) || (
    ty.floating() && (how is Eq || how is Ne || how is Changed || how is Unchanged))
}

/// Whether the current value equals the operand parsed as the value's type.
pub open spec fn equals_operand(cur: ValueModel, operand: Option<Seq<char>>) -> bool {
    match operand {
        Some(s) => match parse_model(cur.kind(), s) {
            Some(t) => exact_eq(cur, t),
            None => false,
        },
        None => false,
    }
}

/// The decision of a next scan that needs no floating-point arithmetic.
pub open spec fn exact_keep(
    how: NextScan,
    cur: ValueModel,
    prev: ValueModel,
    operand: Option<Seq<char>>,
) -> bool {
    match how {
        NextScan::Eq => equals_operand(cur, operand),
        NextScan::Ne => !equals_operand(cur, operand),
        NextScan::Increased => f64_greater(cur, prev),
        NextScan::Decreased => f64_greater(prev, cur),
        NextScan::Changed => !exact_eq(cur, prev),
        NextScan::Unchanged => exact_eq(cur, prev),
        NextScan::Gt => match (cur.number(), int_operand(operand)) {
            (Some(x), Some(n)) => int_as_f64(x) > int_as_f64(n),
            _ => false,
        },
        NextScan::Lt => match (cur.number(), int_operand(operand)) {
            (Some(x), Some(n)) => int_as_f64(x) < int_as_f64(n),
            _ => false,
        },
    }
}

/// Whether a candidate survives: the caller's floating-point `verdict` where
/// one is needed, this library's own decision otherwise.
pub open spec fn keeps(
    how: NextScan,
    cur: ValueModel,
    prev: ValueModel,
    operand: Option<Seq<char>>,
    verdict: bool,
) -> bool {
    if needs_float(how, prev.kind(), operand) {
        verdict
    } else {
        exact_keep(how, cur, prev, operand)
    }
}

pub open spec fn reading_models(r: Seq<Option<ScanValue>>) -> Seq<Option<ValueModel>> {
    r.map_values(
        |o: Option<ScanValue>|
            match o {
                Some(v) => Some(v@),
                None => None,
            },
    )
}

pub open spec fn operand_model(o: Option<&str>) -> Option<Seq<char>> {
    match o {
        Some(s) => Some(s@),
        None => None,
    }
}

/// The survivors of a next scan, in their original order, each carrying the
/// value just read; candidates that could not be read are dropped.
pub open spec fn narrow(
    cands: Seq<CandidateModel>,
    how: NextScan,
    operand: Option<Seq<char>>,
    readings: Seq<Option<ValueModel>>,
    verdicts: Seq<bool>,
) -> Seq<CandidateModel>
    decreases cands.len(),
{
    if cands.len() == 0 {
        seq![]
    } else {
        let rest = narrow(
            cands.drop_last(),
            how,
            operand,
            readings.drop_last(),
            verdicts.drop_last(),
        );
        let c = cands.last();
        match readings.last() {
            Some(cur) => if keeps(how, cur, c.prev, operand, verdicts.last()) {
                rest.push(CandidateModel { addr: c.addr, prev: cur })
            } else {
                rest
            },
            None => rest,
        }
    }
}

fn integer_magnitude(v: &ScanValue) -> (r: (bool, u64))
    requires
        v@.number() is Some,
    ensures
        r.0 == (v@.number().unwrap() < 0),
        r.1 == if v@.number().unwrap() < 0 {
            -v@.number().unwrap()
        } else {
            v@.number().unwrap()
        },
{
    match v {
        ScanValue::I8(x) => (*x < 0, if *x < 0 { (0 - (*x as i64)) as u64 } else { *x as u64 }),
        ScanValue::U8(x) => (false, *x as u64),
        ScanValue::I16(x) => (*x < 0, if *x < 0 { (0 - (*x as i64)) as u64 } else { *x as u64 }),
        ScanValue::U16(x) => (false, *x as u64),
        ScanValue::I32(x) => (*x < 0, if *x < 0 { (0 - (*x as i64)) as u64 } else { *x as u64 }),
        ScanValue::U32(x) => (false, *x as u64),
        ScanValue::I64(x) => (
            *x < 0,
            if *x < 0 {
                (0 - (*x as i128)) as u64
            } else {
                *x as u64
            },
        ),
        ScanValue::U64(x) => (false, *x),
        _ => (false, 0),
    }
}

/// The integer's nearest `f64`, as a sign and magnitude.
fn f64_point(v: &ScanValue) -> (r: (bool, u128))
    requires
        v@.number() is Some,
    ensures
        (if r.0 {
            -(r.1 as int)
        } else {
            r.1 as int
        }) == int_as_f64(v@.number().unwrap()),
        r.0 ==> r.1 > 0,
{
    let (neg, m) = integer_magnitude(v);
    let g = grid_u64(m);
    proof {
        if neg {
            assert(m > 0);
            assert(crate::ieee::f64_grid(m as nat) > 0) by {
                lemma_grid_positive(m as nat);
            }
        }
    }
    (neg && g > 0, g)
}

proof fn lemma_grid_positive(m: nat)
    requires
        m > 0,
        m < 0x1_0000_0000_0000_0000,
    ensures
        crate::ieee::f64_grid(m) > 0,
{
    crate::ieee::lemma_grid_floor(m);
}

fn key_of(v: &ScanValue) -> (r: u64)
    requires
        v@.kind().floating(),
    ensures
        r == zero_key(v@),
{
    match v {
        ScanValue::F32(b) => {
            if *b == 0x8000_0000 {
                0x8000_0000
            } else {
                float_key_of(v)
            }
        },
        ScanValue::F64(b) => {
            if *b == 0x8000_0000_0000_0000 {
                0x8000_0000_0000_0000
            } else {
                float_key_of(v)
            }
        },
        _ => 0,
    }
}

fn is_integer(v: &ScanValue) -> (r: bool)
    ensures
        r == (v@.number() is Some),
{
    !matches!(v, ScanValue::F32(_) | ScanValue::F64(_) | ScanValue::Bytes(_))
}

/// [`f64_greater`] for two values of one type.
pub fn greater_as_f64(a: &ScanValue, b: &ScanValue) -> (r: bool)
    requires
        a@.kind() == b@.kind(),
    ensures
        r == f64_greater(a@, b@),
{
    if is_integer(a) && is_integer(b) {
        let (na, ma) = f64_point(a);
        let (nb, mb) = f64_point(b);
        if na && nb {
            mb > ma
        } else if na {
            false
        } else if nb {
            true
        } else {
            ma > mb
        }
    } else if a.ty().is_float() && !is_nan_value(a) && !is_nan_value(b) {
        key_of(a) > key_of(b)
    } else {
        false
    }
}

fn equals_operand_exec(cur: &ScanValue, operand: Option<&str>) -> (r: bool)
    requires
        !cur@.kind().floating(),
    ensures
        r == equals_operand(cur@, operand_model(operand)),
{
    match operand {
        Some(s) => match cur.ty().parse(s) {
            Some(t) => {
                assert(!t@.kind().floating()) by {
                    lemma_parse_kind(cur@.kind(), s@);
                }
                cur.approx_eq(&t)
            },
            None => false,
        },
        None => false,
    }
}

proof fn lemma_parse_kind(ty: ScanType, s: Seq<char>)
    requires
        !ty.floating(),
        parse_model(ty, s) is Some,
    ensures
        !parse_model(ty, s).unwrap().kind().floating(),
{
}

fn int_operand_exec(operand: Option<&str>) -> (r: Option<i128>)
    ensures
        match r {
            Some(n) => int_operand(operand_model(operand)) == Some(n as int),
            None => int_operand(operand_model(operand)) is None,
        },
{
    match operand {
        Some(s) => parse_int(
            trimmed(chars_of(s).as_slice()).as_slice(),
            10,
            i64::MIN as i128,
            u64::MAX as i128,
        ),
        None => None,
    }
}

fn needs_float_exec(how: NextScan, ty: ScanType, operand: Option<&str>) -> (r: bool)
    ensures
        r == needs_float(how, ty, operand_model(operand)),
{
    (matches!(how, NextScan::Gt | NextScan::Lt) && !matches!(ty, ScanType::Bytes(_))
        && operand.is_some() && !(ty.is_int() && int_operand_exec(operand).is_some())) || (ty.is_float() && matches!(
        how,
        NextScan::Eq | NextScan::Ne | NextScan::Changed | NextScan::Unchanged
    ))
}

/// The `f64` value of the integer `n` (|n| at most 2^64 - 1), as a sign and
/// magnitude.
fn f64_of_int(n: i128) -> (r: (bool, u128))
    requires
        i64::MIN <= n <= u64::MAX,
    ensures
        (if r.0 {
            -(r.1 as int)
        } else {
            r.1 as int
        }) == int_as_f64(n as int),
        r.0 ==> r.1 > 0,
{
    let neg = n < 0;
    let m: u64 = if neg {
        (0 - n) as u64
    } else {
        n as u64
    };
    let g = grid_u64(m);
    proof {
        if neg {
            lemma_grid_positive(m as nat);
        }
    }
    (neg && g > 0, g)
}

/// `a > b` for sign-and-magnitude pairs.
fn signed_greater(a: (bool, u128), b: (bool, u128)) -> (r: bool)
    requires
        a.0 ==> a.1 > 0,
        b.0 ==> b.1 > 0,
    ensures
        r == ((if a.0 {
            -(a.1 as int)
        } else {
            a.1 as int
        }) > (if b.0 {
            -(b.1 as int)
        } else {
            b.1 as int
        })),
{
    if a.0 && b.0 {
        b.1 > a.1
    } else if a.0 {
        false
    } else if b.0 {
        true
    } else {
        a.1 > b.1
    }
}


/// Whether a candidate with previous value `prev` survives a next scan with
/// current value `cur` (of the same type); `verdict` is the caller's
/// floating-point decision, used exactly where one is needed.
pub fn keep_candidate(
    how: NextScan,
    cur: &ScanValue,
    prev: &ScanValue,
    operand: Option<&str>,
    verdict: bool,
) -> (r: bool)
    requires
        cur@.kind() == prev@.kind(),
    ensures
        r == keeps(how, cur@, prev@, operand_model(operand), verdict),
{
    if needs_float_exec(how, prev.ty(), operand) {
        return verdict;
    }
    if matches!(how, NextScan::Gt | NextScan::Lt) {
        let n = match int_operand_exec(operand) {
            Some(n) => n,
            None => {
                return false;
            },
        };
        if !cur.ty().is_int() {
            return false;
        }
        let x = f64_point(cur);
        let y = f64_of_int(n);
        return if matches!(how, NextScan::Gt) {
            signed_greater(x, y)
        } else {
            signed_greater(y, x)
        };
    }
    match how {
        NextScan::Eq => equals_operand_exec(cur, operand),
        NextScan::Ne => !equals_operand_exec(cur, operand),
        NextScan::Increased => greater_as_f64(cur, prev),
        NextScan::Decreased => greater_as_f64(prev, cur),
        NextScan::Changed => !cur.approx_eq(prev),
        NextScan::Unchanged => cur.approx_eq(prev),
        _ => false,
    }
}

proof fn lemma_narrow_step(
    cands: Seq<CandidateModel>,
    how: NextScan,
    om: Option<Seq<char>>,
    rm: Seq<Option<ValueModel>>,
    verdicts: Seq<bool>,
    i: int,
)
    requires
        0 <= i < cands.len(),
        rm.len() == cands.len(),
        verdicts.len() == cands.len(),
    ensures
        narrow(cands.subrange(0, i + 1), how, om, rm.subrange(0, i + 1), verdicts.subrange(0, i + 1))
            == match rm[i] {
            Some(cur) => if keeps(how, cur, cands[i].prev, om, verdicts[i]) {
                narrow(cands.subrange(0, i), how, om, rm.subrange(0, i), verdicts.subrange(0, i)).push(
                    CandidateModel { addr: cands[i].addr, prev: cur },
                )
            } else {
                narrow(cands.subrange(0, i), how, om, rm.subrange(0, i), verdicts.subrange(0, i))
            },
            None => narrow(cands.subrange(0, i), how, om, rm.subrange(0, i), verdicts.subrange(0, i)),
        },
{
    assert(cands.subrange(0, i + 1).drop_last() =~= cands.subrange(0, i));
    assert(rm.subrange(0, i + 1).drop_last() =~= rm.subrange(0, i));
    assert(verdicts.subrange(0, i + 1).drop_last() =~= verdicts.subrange(0, i));
}

/// The candidate set of one process, with the history of sets that next
/// scans replaced (for undo).
pub struct Scanner {
    pid: i32,
    results: Vec<Candidate>,
    scanned: bool,
    history: Vec<Vec<Candidate>>,
}

pub struct ScannerModel {
    pub pid: i32,
    pub results: Seq<CandidateModel>,
    pub scanned: bool,
    pub history: Seq<Seq<CandidateModel>>,
}

impl View for Scanner {
    type V = ScannerModel;

    closed spec fn view(&self) -> ScannerModel {
        ScannerModel {
            pid: self.pid,
            results: models(self.results@),
            scanned: self.scanned,
            history: self.history@.map_values(|v: Vec<Candidate>| models(v@)),
        }
    }
}

/// The state after a next scan: an empty set stays as it is; otherwise the
/// set is narrowed and the set it replaces goes onto the history.
pub open spec fn after_next(
    s: ScannerModel,
    how: NextScan,
    operand: Option<Seq<char>>,
    readings: Seq<Option<ValueModel>>,
    verdicts: Seq<bool>,
) -> ScannerModel {
    if s.results.len() == 0 {
        s
    } else {
        ScannerModel {
            results: narrow(s.results, how, operand, readings, verdicts),
            history: s.history.push(s.results),
            ..s
        }
    }
}

/// The state after an undo: the most recently replaced set comes back.
pub open spec fn after_undo(s: ScannerModel) -> ScannerModel {
    if s.history.len() == 0 {
        s
    } else {
        ScannerModel { results: s.history.last(), history: s.history.drop_last(), ..s }
    }
}

impl Scanner {
    /// A scanner for `pid` with no scan done yet.
    pub fn new(pid: i32) -> (r: Scanner)
        ensures
            r@.pid == pid,
            r@.results.len() == 0,
            !r@.scanned,
            r@.history.len() == 0,
    {
        let r = Scanner { pid, results: Vec::new(), scanned: false, history: Vec::new() };
        assert(r@.history =~= Seq::<Seq<CandidateModel>>::empty());
        r
    }

    /// Resume a session for `pid` with a previously saved candidate set, so
    /// that next scans continue where an earlier run stopped.
    pub fn from_candidates(pid: i32, candidates: Vec<Candidate>) -> (r: Scanner)
        ensures
            r@.pid == pid,
            r@.results == models(candidates@),
            r@.scanned,
            r@.history.len() == 0,
    {
        let r = Scanner { pid, results: candidates, scanned: true, history: Vec::new() };
        assert(r@.history =~= Seq::<Seq<CandidateModel>>::empty());
        r
    }

    pub fn pid(&self) -> (r: i32)
        ensures
            r == self@.pid,
    {
        self.pid
    }

    /// Whether a first scan has been performed yet.
    pub fn has_scanned(&self) -> (r: bool)
        ensures
            r == self@.scanned,
    {
        self.scanned
    }

    /// Number of surviving candidates.
    pub fn count(&self) -> (r: usize)
        ensures
            r == self@.results.len(),
    {
        self.results.len()
    }

    pub fn results(&self) -> (r: &[Candidate])
        ensures
            models(r@) == self@.results,
    {
        self.results.as_slice()
    }

    /// Clear the candidate set, its history and the "has scanned" flag.
    pub fn reset(&mut self)
        ensures
            final(self)@.pid == old(self)@.pid,
            final(self)@.results.len() == 0,
            !final(self)@.scanned,
            final(self)@.history.len() == 0,
    {
        self.results = Vec::new();
        self.history = Vec::new();
        self.scanned = false;
        assert(self@.history =~= Seq::<Seq<CandidateModel>>::empty());
    }

    /// Whether a narrowing can be undone.
    pub fn can_undo(&self) -> (r: bool)
        ensures
            r == (self@.history.len() > 0),
    {
        self.history.len() > 0
    }

    /// Restore the candidate set the last next scan replaced; `false` when
    /// there is nothing to undo.
    pub fn undo(&mut self) -> (r: bool)
        ensures
            r == (old(self)@.history.len() > 0),
            final(self)@ == after_undo(old(self)@),
    {
        match self.history.pop() {
            Some(prev) => {
                self.results = prev;
                proof {
                    assert(self@.history =~= old(self)@.history.drop_last());
                }
                true
            },
            None => false,
        }
    }

    /// Record the outcome of a first scan: `found` holds every hit of the
    /// blocks read (see [`scan_values_block`], [`scan_every_block`] and
    /// [`scan_pattern_block`]); the result set is those hits sorted by
    /// address, and the history starts empty.
    pub fn first_scan(&mut self, found: Vec<Candidate>)
        ensures
            final(self)@.pid == old(self)@.pid,
            final(self)@.scanned,
            final(self)@.history.len() == 0,
            addr_sorted(final(self)@.results),
            final(self)@.results.to_multiset() == models(found@).to_multiset(),
    {
        self.results = sort_by_addr(found.as_slice());
        self.history = Vec::new();
        self.scanned = true;
        assert(self@.history =~= Seq::<Seq<CandidateModel>>::empty());
    }

    /// A whole first scan on one thread: scan the work items in order
    /// through `read(addr, len)`, then keep the hits sorted by address. The
    /// results are the hits of [`items_give`] for results that `read` gave
    /// at the addresses and lengths the scan asked for.
    pub fn scan_first<F: Fn(u64, usize) -> Option<Vec<u8>>>(
        &mut self,
        items: &[(u64, u64)],
        job: &BlockScan,
        read: &F,
    )
        requires
            job.wf(),
            forall|a: u64, n: usize| call_requires(*read, (a, n)),
        ensures
            final(self)@.pid == old(self)@.pid,
            final(self)@.scanned,
            final(self)@.history.len() == 0,
            addr_sorted(final(self)@.results),
            exists|h: Seq<CandidateModel>|
                #[trigger] items_give(*read, *job, items@, h) && final(self)@.results.to_multiset()
                    == h.to_multiset(),
    {
        let mut found: Vec<Candidate> = Vec::new();
        scan_items(items, job, read, &mut found);
        proof {
            let h = choose|h: Seq<CandidateModel>|
                models(found@) == Seq::<CandidateModel>::empty() + h && #[trigger] items_give(
                    *read,
                    *job,
                    items@,
                    h,
                );
            assert(Seq::<CandidateModel>::empty() + h =~= h);
        }
        self.first_scan(found);
    }

    /// Refine the candidate set with a next scan. `readings[i]` is the value
    /// just read at candidate `i`'s address as its type (`None` if it could
    /// not be read); `verdicts[i]` is the caller's floating-point decision
    /// for candidate `i`, consulted only where [`needs_float`] holds. Order
    /// is preserved, and the replaced set can be restored with [`Scanner::undo`].
    pub fn next_scan(
        &mut self,
        how: NextScan,
        operand: Option<&str>,
        readings: &[Option<ScanValue>],
        verdicts: &[bool],
    )
        requires
            readings@.len() == old(self)@.results.len(),
            verdicts@.len() == old(self)@.results.len(),
            forall|i: int|
                0 <= i < readings@.len() ==> (#[trigger] readings@[i] matches Some(v) ==> v@.kind()
                    == old(self)@.results[i].prev.kind()),
        ensures
            final(self)@ == after_next(
                old(self)@,
                how,
                operand_model(operand),
                reading_models(readings@),
                verdicts@,
            ),
    {
        if self.results.len() == 0 {
            return;
        }
        let ghost cands = models(self.results@);
        let ghost rm = reading_models(readings@);
        let ghost om = operand_model(operand);
        let mut kept: Vec<Candidate> = Vec::new();
        let mut i: usize = 0;
        let n = self.results.len();
        assert(cands.subrange(0, 0) =~= Seq::<CandidateModel>::empty());
        while i < n
            invariant
                i <= n,
                n == self.results@.len(),
                cands == models(self.results@),
                rm == reading_models(readings@),
                om == operand_model(operand),
                readings@.len() == n,
                verdicts@.len() == n,
                forall|j: int|
                    0 <= j < readings@.len() ==> (#[trigger] readings@[j] matches Some(v)
                        ==> v@.kind() == cands[j].prev.kind()),
                models(kept@) == narrow(
                    cands.subrange(0, i as int),
                    how,
                    om,
                    rm.subrange(0, i as int),
                    verdicts@.subrange(0, i as int),
                ),
            decreases n - i,
        {
            proof {
                lemma_narrow_step(cands, how, om, rm, verdicts@, i as int);
                assert(cands.subrange(0, i + 1).drop_last() =~= cands.subrange(0, i as int));
                assert(rm.subrange(0, i + 1).drop_last() =~= rm.subrange(0, i as int));
                assert(verdicts@.subrange(0, i + 1).drop_last() =~= verdicts@.subrange(
                    0,
                    i as int,
                ));
                assert(cands[i as int] == self.results@[i as int]@);
                assert(cands.subrange(0, i + 1).last() == cands[i as int]);
                assert(rm.subrange(0, i + 1).last() == rm[i as int]);
                assert(verdicts@.subrange(0, i + 1).last() == verdicts@[i as int]);
            }
            match &readings[i] {
                Some(cur) => {
                    assert(rm[i as int] == Some(cur@));
                    let cand = &self.results[i];
                    if keep_candidate(how, cur, &cand.prev, operand, verdicts[i]) {
                        let c = Candidate { addr: cand.addr, prev: cur.duplicate() };
                        proof {
                            lemma_models_push(kept@, c);
                        }
                        kept.push(c);
                    }
                },
                None => {
                    assert(rm[i as int] is None);
                },
            }
            i = i + 1;
        }
        proof {
            assert(cands.subrange(0, n as int) =~= cands);
            assert(rm.subrange(0, n as int) =~= rm);
            assert(verdicts@.subrange(0, n as int) =~= verdicts@);
        }
        let mut old_results = kept;
        std::mem::swap(&mut self.results, &mut old_results);
        self.history.push(old_results);
        proof {
            assert(self@.history =~= old(self)@.history.push(cands));
        }
    }
}

/// Undoing a narrowing restores exactly the candidate set (and history)
/// that was there before it.
pub proof fn law_undo_restores_narrowing(
    s: ScannerModel,
    how: NextScan,
    operand: Option<Seq<char>>,
    readings: Seq<Option<ValueModel>>,
    verdicts: Seq<bool>,
)
    requires
        s.results.len() > 0,
    ensures
        after_undo(after_next(s, how, operand, readings, verdicts)) == s,
{
    assert(s.history.push(s.results).drop_last() =~= s.history);
}

/// A narrowing keeps candidates in their order, never adds one, and every
/// survivor is a former candidate's address carrying the value read there;
/// in particular an address-sorted set stays sorted.
pub proof fn law_narrow_is_ordered_subset(
    cands: Seq<CandidateModel>,
    how: NextScan,
    operand: Option<Seq<char>>,
    readings: Seq<Option<ValueModel>>,
    verdicts: Seq<bool>,
)
    requires
        readings.len() == cands.len(),
        verdicts.len() == cands.len(),
    ensures
        ({
            let out = narrow(cands, how, operand, readings, verdicts);
            &&& out.len() <= cands.len()
            &&& forall|k: int|
                0 <= k < out.len() ==> exists|j: int|
                    0 <= j < cands.len() && cands[j].addr == (#[trigger] out[k]).addr && readings[j]
                        == Some(out[k].prev)
            &&& addr_sorted(cands) ==> addr_sorted(out)
        }),
    decreases cands.len(),
{
    if cands.len() > 0 {
        let n = cands.len() - 1;
        let c0 = cands.drop_last();
        let r0 = readings.drop_last();
        let v0 = verdicts.drop_last();
        law_narrow_is_ordered_subset(c0, how, operand, r0, v0);
        let rest = narrow(c0, how, operand, r0, v0);
        let out = narrow(cands, how, operand, readings, verdicts);
        assert forall|k: int| 0 <= k < rest.len() implies exists|j: int|
            0 <= j < cands.len() && cands[j].addr == (#[trigger] rest[k]).addr && readings[j]
                == Some(rest[k].prev) by {
            let j = choose|j: int|
                0 <= j < c0.len() && c0[j].addr == rest[k].addr && r0[j] == Some(rest[k].prev);
            assert(cands[j] == c0[j] && readings[j] == r0[j]);
        }
        if out.len() > rest.len() {
            assert(out[out.len() - 1].addr == cands[n].addr);
            assert(forall|k: int| 0 <= k < rest.len() ==> out[k] == rest[k]);
            if addr_sorted(cands) {
                assert forall|x: int, y: int| 0 <= x <= y < out.len() implies (#[trigger] out[x]).addr
                    <= (#[trigger] out[y]).addr by {
                    if y == out.len() - 1 && x < y {
                        let j = choose|j: int|
                            0 <= j < cands.len() && cands[j].addr == (#[trigger] rest[x]).addr
                                && readings[j] == Some(rest[x].prev);
                        assert(cands[j].addr <= cands[n].addr);
                    }
                }
            }
        }
        if addr_sorted(cands) {
            assert(addr_sorted(c0));
        }
    }
}

/// A value that did not change is kept by "unchanged" and dropped by
/// "changed" (for non-floating types, which need no tolerance).
pub proof fn law_steady_value(v: ValueModel, operand: Option<Seq<char>>, verdict: bool)
    requires
        !v.kind().floating(),
    ensures
        keeps(NextScan::Unchanged, v, v, operand, verdict),
        !keeps(NextScan::Changed, v, v, operand, verdict),
{
}

/// Integers up to 2^53 in magnitude are exact as `f64`, so "increased"
/// between two of them is plain integer comparison.
pub proof fn law_increased_small_integers(a: ValueModel, b: ValueModel)
    requires
        a.number() is Some,
        b.number() is Some,
        -0x20_0000_0000_0000 < a.number().unwrap() < 0x20_0000_0000_0000,
        -0x20_0000_0000_0000 < b.number().unwrap() < 0x20_0000_0000_0000,
    ensures
        f64_greater(a, b) == (a.number().unwrap() > b.number().unwrap()),
{
    let x = a.number().unwrap();
    let y = b.number().unwrap();
    crate::ieee::lemma_small_exact(if x < 0 { -x } else { x });
    crate::ieee::lemma_small_exact(if y < 0 { -y } else { y });
}

/// For integer candidates up to 2^53 in magnitude (exact as `f64`), a next
/// scan decides by plain integer comparison and the caller's verdict plays
/// no part: "decreased" keeps exactly the values now below their previous
/// value, "increased" exactly those above it, "changed" those that differ
/// and "unchanged" those that do not; against an integer operand `n`, ">"
/// keeps exactly the values above `n` and "<" those below it.
pub proof fn law_next_scan_integers(
    cur: ValueModel,
    prev: ValueModel,
    operand: Option<Seq<char>>,
    verdict: bool,
)
    requires
        cur.number() is Some,
        prev.number() is Some,
        -0x20_0000_0000_0000 < cur.number().unwrap() < 0x20_0000_0000_0000,
        -0x20_0000_0000_0000 < prev.number().unwrap() < 0x20_0000_0000_0000,
    ensures
        keeps(NextScan::Decreased, cur, prev, operand, verdict) == (cur.number().unwrap()
            < prev.number().unwrap()),
        keeps(NextScan::Increased, cur, prev, operand, verdict) == (cur.number().unwrap()
            > prev.number().unwrap()),
        keeps(NextScan::Changed, cur, prev, operand, verdict) == (cur.number().unwrap()
            != prev.number().unwrap()),
        keeps(NextScan::Unchanged, cur, prev, operand, verdict) == (cur.number().unwrap()
            == prev.number().unwrap()),
        int_operand(operand) matches Some(n) ==> (-0x20_0000_0000_0000 < n < 0x20_0000_0000_0000
            ==> keeps(NextScan::Gt, cur, prev, operand, verdict) == (cur.number().unwrap() > n)
            && keeps(NextScan::Lt, cur, prev, operand, verdict) == (cur.number().unwrap() < n)),
{
    let x = cur.number().unwrap();
    let y = prev.number().unwrap();
    crate::ieee::lemma_small_exact(if x < 0 { -x } else { x });
    crate::ieee::lemma_small_exact(if y < 0 { -y } else { y });
    assert(prev.kind().integral());
    assert(!needs_float(NextScan::Decreased, prev.kind(), operand));
    assert(!needs_float(NextScan::Increased, prev.kind(), operand));
    assert(!needs_float(NextScan::Changed, prev.kind(), operand));
    assert(!needs_float(NextScan::Unchanged, prev.kind(), operand));
    match int_operand(operand) {
        Some(n) => {
            if -0x20_0000_0000_0000 < n < 0x20_0000_0000_0000 {
                crate::ieee::lemma_small_exact(if n < 0 { -n } else { n });
                assert(!needs_float(NextScan::Gt, prev.kind(), operand));
                assert(!needs_float(NextScan::Lt, prev.kind(), operand));
            }
        },
        None => {},
    }
}

/// Whether address `a` lies in one of the ranges `ps`.
pub open spec fn covered(ps: Seq<(u64, u64)>, a: int) -> bool {
    exists|k: int| 0 <= k < ps.len() && (#[trigger] ps[k]).0 <= a < ps[k].1
}

/// Whether address `a` lies in one of the regions `rs`.
pub open spec fn in_regions(rs: Seq<RegionModel>, a: int) -> bool {
    exists|j: int| 0 <= j < rs.len() && (#[trigger] rs[j]).start <= a < rs[j].end
}

proof fn lemma_pieces_cover(s: u64, e: u64)
    ensures
        forall|k: int|
            0 <= k < pieces(s, e).len() ==> s <= (#[trigger] pieces(s, e)[k]).0 < pieces(s, e)[k].1
                <= e && pieces(s, e)[k].1 <= pieces(s, e)[k].0 + WORK_ITEM,
        forall|a: int| s <= a < e ==> #[trigger] covered(pieces(s, e), a),
    decreases e - s,
{
    if s < e {
        let m = if e - s > WORK_ITEM {
            (s + WORK_ITEM) as u64
        } else {
            e
        };
        lemma_pieces_cover(m, e);
        let p = pieces(s, e);
        let q = pieces(m, e);
        assert(p == seq![(s, m)] + q);
        assert forall|k: int| 0 <= k < p.len() implies s <= (#[trigger] p[k]).0 < p[k].1 <= e && p[k].1
            <= p[k].0 + WORK_ITEM by {
            if k > 0 {
                assert(p[k] == q[k - 1]);
            }
        }
        assert forall|a: int| s <= a < e implies #[trigger] covered(p, a) by {
            if a < m {
                assert(p[0].0 <= a < p[0].1);
            } else {
                assert(covered(q, a));
                let k = choose|k: int| 0 <= k < q.len() && (#[trigger] q[k]).0 <= a < q[k].1;
                assert(p[k + 1] == q[k]);
            }
        }
    }
}

/// An integer candidate narrowed by "greater than" or "less than" an
/// integer operand needs no caller verdict; below 2^53 in magnitude the
/// comparison is plain integer comparison.
pub proof fn law_integer_bounds(
    cur: ValueModel,
    prev: ValueModel,
    operand: Option<Seq<char>>,
    verdict: bool,
)
    requires
        cur.number() is Some,
        prev.kind() == cur.kind(),
        int_operand(operand) is Some,
        -0x20_0000_0000_0000 < cur.number().unwrap() < 0x20_0000_0000_0000,
        -0x20_0000_0000_0000 < int_operand(operand).unwrap() < 0x20_0000_0000_0000,
    ensures
        keeps(NextScan::Gt, cur, prev, operand, verdict) == (cur.number().unwrap()
            > int_operand(operand).unwrap()),
        keeps(NextScan::Lt, cur, prev, operand, verdict) == (cur.number().unwrap()
            < int_operand(operand).unwrap()),
{
    let x = cur.number().unwrap();
    let n = int_operand(operand).unwrap();
    crate::ieee::lemma_small_exact(if x < 0 { -x } else { x });
    crate::ieee::lemma_small_exact(if n < 0 { -n } else { n });
}

/// "Greater than" and "less than" drop a byte pattern, and drop every
/// candidate when no operand is given, whatever the caller's verdict.
pub proof fn law_bounds_need_a_number(
    cur: ValueModel,
    prev: ValueModel,
    operand: Option<Seq<char>>,
    verdict: bool,
)
    requires
        cur.kind() == prev.kind(),
        prev.kind() is Bytes || operand is None,
    ensures
        !keeps(NextScan::Gt, cur, prev, operand, verdict),
        !keeps(NextScan::Lt, cur, prev, operand, verdict),
{
}

/// The work items of a list of regions: region by region in order, the
/// items of each region (which tile it consecutively, see
/// [`law_pieces_tile`]); each is non-empty, at most [`WORK_ITEM`] long and
/// inside one of the regions, and every address of every region lies in one
/// of them (a region with `start >= end` has none).
pub proof fn law_work_items_cover(rs: Seq<RegionModel>)
    ensures
        forall|k: int|
            0 <= k < items_model(rs).len() ==> (#[trigger] items_model(rs)[k]).0 < items_model(rs)[k].1
                <= items_model(rs)[k].0 + WORK_ITEM,
        forall|k: int|
            0 <= k < items_model(rs).len() ==> exists|j: int|
                0 <= j < rs.len() && (#[trigger] rs[j]).start <= (#[trigger] items_model(rs)[k]).0
                    && items_model(rs)[k].1 <= rs[j].end,
        forall|a: int| #[trigger] in_regions(rs, a) ==> covered(items_model(rs), a),
        rs.len() > 0 ==> items_model(rs) == pieces(rs[0].start, rs[0].end) + items_model(
            rs.drop_first(),
        ),
        forall|s: u64, e: u64| s >= e ==> (#[trigger] pieces(s, e)).len() == 0,
    decreases rs.len(),
{
    if rs.len() > 0 {
        let t = rs.drop_first();
        law_work_items_cover(t);
        lemma_pieces_cover(rs[0].start, rs[0].end);
        let p = pieces(rs[0].start, rs[0].end);
        let q = items_model(t);
        let all = items_model(rs);
        assert(all == p + q);
        assert forall|k: int| 0 <= k < all.len() implies (#[trigger] all[k]).0 < all[k].1 <= all[k].0
            + WORK_ITEM by {
            if k >= p.len() {
                assert(all[k] == q[k - p.len()]);
            } else {
                assert(all[k] == p[k]);
            }
        }
        assert forall|k: int| 0 <= k < all.len() implies exists|j: int|
            0 <= j < rs.len() && (#[trigger] rs[j]).start <= (#[trigger] all[k]).0 && all[k].1
                <= rs[j].end by {
            if k >= p.len() {
                assert(all[k] == q[k - p.len()]);
                let j = choose|j: int|
                    0 <= j < t.len() && (#[trigger] t[j]).start <= (#[trigger] q[k - p.len()]).0
                        && q[k - p.len()].1 <= t[j].end;
                assert(rs[j + 1] == t[j]);
            } else {
                assert(all[k] == p[k]);
                assert(rs[0].start <= p[k].0);
            }
        }
        assert forall|a: int| #[trigger] in_regions(rs, a) implies covered(all, a) by {
            let j = choose|j: int| 0 <= j < rs.len() && (#[trigger] rs[j]).start <= a < rs[j].end;
            if j == 0 {
                assert(covered(p, a));
                let k = choose|k: int| 0 <= k < p.len() && (#[trigger] p[k]).0 <= a < p[k].1;
                assert(all[k] == p[k]);
            } else {
                assert(t[j - 1] == rs[j]);
                assert(in_regions(t, a));
                let k = choose|k: int| 0 <= k < q.len() && (#[trigger] q[k]).0 <= a < q[k].1;
                assert(all[k + p.len()] == q[k]);
            }
        }
    }
}

/// The work items of a region cover it exactly: they start at its start,
/// end at its end, follow one another without gap or overlap, and none is
/// empty or longer than [`WORK_ITEM`].
pub proof fn law_pieces_tile(s: u64, e: u64)
    requires
        s < e,
    ensures
        ({
            let p = pieces(s, e);
            &&& p.len() > 0
            &&& p[0].0 == s
            &&& p.last().1 == e
            &&& forall|k: int| 0 <= k < p.len() ==> (#[trigger] p[k]).0 < p[k].1 <= p[k].0 + WORK_ITEM
            &&& forall|k: int| 0 <= k < p.len() - 1 ==> (#[trigger] p[k]).1 == p[k + 1].0
        }),
    decreases e - s,
{
    let m = if e - s > WORK_ITEM {
        (s + WORK_ITEM) as u64
    } else {
        e
    };
    let p = pieces(s, e);
    if m < e {
        law_pieces_tile(m, e);
        let q = pieces(m, e);
        assert(p == seq![(s, m)] + q);
        assert forall|k: int| 0 <= k < p.len() - 1 implies (#[trigger] p[k]).1 == p[k + 1].0 by {
            if k > 0 {
                assert(p[k] == q[k - 1]);
                assert(p[k + 1] == q[k]);
            }
        }
        assert forall|k: int| 0 <= k < p.len() implies (#[trigger] p[k]).0 < p[k].1 <= p[k].0
            + WORK_ITEM by {
            if k > 0 {
                assert(p[k] == q[k - 1]);
            }
        }
    } else {
        assert(pieces(m, e) =~= Seq::<(u64, u64)>::empty());
        assert(p =~= seq![(s, e)]);
    }
}

} // verus!
