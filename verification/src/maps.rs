//! Memory regions of a process and the `/proc/<pid>/maps` format.

use vstd::prelude::*;
use crate::numeral::{parse_int, parse_int_spec};
use crate::text::{
    chars_of, find_char, index_of, lemma_index_of_bound, lemma_word_len_bound, skip_word,
    string_of, trim, trimmed, word_len,
};
use crate::value::eq_lit;

verus! {

/// A single mapped memory region of a process.
#[derive(Clone, Debug)]
pub struct MemoryRegion {
    pub start: u64,
    pub end: u64,
    pub read: bool,
    pub write: bool,
    pub executable: bool,
    pub shared: bool,
    /// Pathname or pseudo-name, e.g. `[heap]`, `[stack]`, or a library path.
    pub path: String,
}

/// Coarse classification of a memory region, used to rank scan candidates
/// by how likely they are to be the authoritative game value.
#[derive(Copy, Clone, Debug, PartialEq, Eq, Structural)]
pub enum RegionKind {
    Heap,
    Stack,
    ModuleData,
    Anonymous,
    Other,
}

/// The plain content of a [`MemoryRegion`].
pub struct RegionModel {
    pub start: u64,
    pub end: u64,
    pub read: bool,
    pub write: bool,
    pub executable: bool,
    pub shared: bool,
    pub path: Seq<char>,
}

impl View for MemoryRegion {
    type V = RegionModel;

    open spec fn view(&self) -> RegionModel {
        RegionModel {
            start: self.start,
            end: self.end,
            read: self.read,
            write: self.write,
            executable: self.executable,
            shared: self.shared,
            path: self.path@,
        }
    }
}

impl RegionModel {
    /// Whether the region is a sensible target for value scanning.
    pub open spec fn scannable(self) -> bool {
        self.read && self.write && self.path != "[vvar]"@ && self.path != "[vdso]"@
            && self.path != "[vsyscall]"@
    }

    pub open spec fn classify(self) -> RegionKind {
        if self.path == "[heap]"@ {
            RegionKind::Heap
        } else if self.path == "[stack]"@ {
            RegionKind::Stack
        } else if self.path.len() == 0 {
            RegionKind::Anonymous
        } else if self.path[0] != '[' && self.write && !self.executable {
            RegionKind::ModuleData
        } else {
            RegionKind::Other
        }
    }

    pub open spec fn contains(self, addr: u64) -> bool {
        self.start <= addr < self.end
    }
}

impl MemoryRegion {
    /// Length in bytes (0 for an inverted range).
    pub fn size(&self) -> (r: u64)
        ensures
            r == if self.end >= self.start {
                self.end - self.start
            } else {
                0
            },
    {
        self.end.saturating_sub(self.start)
    }

    /// Whether this region is a sensible target for value scanning: readable,
    /// writable, and not one of the special kernel maps that either can't be
    /// read safely (`[vvar]`, `[vsyscall]`) or never hold game state.
    pub fn is_scannable(&self) -> (r: bool)
        ensures
            r == self@.scannable(),
    {
        if !(self.read && self.write) {
            return false;
        }
        let p = chars_of(self.path.as_str());
        !(eq_lit(p.as_slice(), "[vvar]") || eq_lit(p.as_slice(), "[vdso]") || eq_lit(
            p.as_slice(),
            "[vsyscall]",
        ))
    }

    /// Classify the region. Game state usually lives on the heap or in a
    /// module's writable data/bss; the stack holds transient locals.
    pub fn kind(&self) -> (r: RegionKind)
        ensures
            r == self@.classify(),
    {
        let p = chars_of(self.path.as_str());
        let p = p.as_slice();
        if eq_lit(p, "[heap]") {
            RegionKind::Heap
        } else if eq_lit(p, "[stack]") {
            RegionKind::Stack
        } else if p.len() == 0 {
            RegionKind::Anonymous
        } else if p[0] != '[' && self.write && !self.executable {
            RegionKind::ModuleData
        } else {
            RegionKind::Other
        }
    }
}

/// Find the first region containing `addr` (end exclusive), if any.
pub fn region_for(regions: &[MemoryRegion], addr: u64) -> (r: Option<&MemoryRegion>)
    ensures
        match r {
            Some(reg) => exists|i: int|
                0 <= i < regions@.len() && regions@[i] == *reg && reg@.contains(addr) && forall|
                    j: int,
                | 0 <= j < i ==> !(#[trigger] regions@[j])@.contains(addr),
            None => forall|j: int| 0 <= j < regions@.len() ==> !(#[trigger] regions@[j])@.contains(addr),
        },
{
    let mut i: usize = 0;
    while i < regions.len()
        invariant
            i <= regions@.len(),
            forall|j: int| 0 <= j < i ==> !(#[trigger] regions@[j])@.contains(addr),
        decreases regions@.len() - i,
    {
        let r = &regions[i];
        if addr >= r.start && addr < r.end {
            return Some(r);
        }
        i = i + 1;
    }
    None
}

/// `s` with one trailing carriage return removed.
pub open spec fn strip_cr(s: Seq<char>) -> Seq<char> {
    if s.len() > 0 && s.last() == '\r' {
        s.drop_last()
    } else {
        s
    }
}

/// `str::lines`: split at `\n`, dropping a `\r` before it; a final line
/// ending adds no empty line.
pub open spec fn lines(s: Seq<char>) -> Seq<Seq<char>>
    decreases s.len(),
{
    if s.len() == 0 {
        seq![]
    } else {
        let k = index_of(s, '\n');
        proof {
            lemma_index_of_bound(s, '\n');
        }
        if k >= s.len() {
            seq![s]
        } else {
            seq![strip_cr(s.subrange(0, k as int))] + lines(s.subrange(k as int + 1, s.len() as int))
        }
    }
}

/// `str::splitn(n, char::is_whitespace)`: at most `n` pieces separated by
/// single whitespace characters, the last holding the remainder.
pub open spec fn split_n(s: Seq<char>, n: nat) -> Seq<Seq<char>>
    decreases s.len(),
{
    let k = word_len(s);
    proof {
        lemma_word_len_bound(s);
    }
    if n <= 1 || k >= s.len() {
        seq![s]
    } else {
        seq![s.subrange(0, k as int)] + split_n(s.subrange(k as int + 1, s.len() as int), (n - 1) as nat)
    }
}

/// The region one line of `/proc/<pid>/maps` describes, e.g.
/// `55a3b1c00000-55a3b1c21000 rw-p 00000000 00:00 0    [heap]`.
/// Lines without a permission field or with a malformed address range
/// describe none.
pub open spec fn parse_line_model(line: Seq<char>) -> Option<RegionModel> {
    let parts = split_n(line, 6);
    if parts.len() < 2 {
        None
    } else {
        let range = parts[0];
        let perms = vstd::utf8::encode_utf8(parts[1]);
        let path = if parts.len() >= 6 {
            trim(parts[5])
        } else {
            seq![]
        };
        let d = index_of(range, '-');
        if d >= range.len() {
            None
        } else {
            let lo = parse_int_spec(range.subrange(0, d as int), 16, 0, u64::MAX as int);
            let hi = parse_int_spec(range.subrange(d as int + 1, range.len() as int), 16, 0, u64::MAX as int);
            if lo is Some && hi is Some {
                Some(
                    RegionModel {
                        start: lo.unwrap() as u64,
                        end: hi.unwrap() as u64,
                        read: perms.len() > 0 && perms[0] == 0x72,
                        write: perms.len() > 1 && perms[1] == 0x77,
                        executable: perms.len() > 2 && perms[2] == 0x78,
                        shared: perms.len() > 3 && perms[3] == 0x73,
                        path: path,
                    },
                )
            } else {
                None
            }
        }
    }
}

/// The regions described by a sequence of lines, in order.
pub open spec fn parse_lines_model(ls: Seq<Seq<char>>) -> Seq<RegionModel>
    decreases ls.len(),
{
    if ls.len() == 0 {
        seq![]
    } else {
        let rest = parse_lines_model(ls.drop_first());
        match parse_line_model(ls[0]) {
            Some(r) => seq![r] + rest,
            None => rest,
        }
    }
}

/// The regions a whole `/proc/<pid>/maps` text describes.
pub open spec fn maps_model(text: Seq<char>) -> Seq<RegionModel> {
    parse_lines_model(lines(text))
}

/// End of the next `splitn` piece starting at `i` and the start of the one
/// after it (`None` when this piece is the last).
fn next_piece(s: &[char], i: usize, n: usize) -> (r: (usize, Option<usize>))
    requires
        i <= s@.len(),
    ensures
        ({
            let t = s@.subrange(i as int, s@.len() as int);
            let parts = split_n(t, n as nat);
            &&& i <= r.0 <= s@.len()
            &&& parts[0] == s@.subrange(i as int, r.0 as int)
            &&& match r.1 {
                Some(j) => j == r.0 + 1 && j <= s@.len() && parts.len() >= 2 && parts.drop_first()
                    == split_n(s@.subrange(j as int, s@.len() as int), (n - 1) as nat),
                None => r.0 == s@.len() && parts.len() == 1,
            }
        }),
{
    let ghost t = s@.subrange(i as int, s@.len() as int);
    let e = skip_word(s, i);
    proof {
        lemma_word_len_bound(t);
    }
    if n <= 1 || e == s.len() {
        proof {
            if n > 1 {
                assert(word_len(t) >= t.len());
            }
        }
        if n <= 1 {
            return (s.len(), None);
        }
        return (e, None);
    }
    proof {
        let k = word_len(t);
        assert(k == e - i);
        assert(k < t.len());
        assert(t.subrange(0, (e - i) as int) =~= s@.subrange(i as int, e as int));
        assert(t.subrange(e - i + 1, t.len() as int) =~= s@.subrange(e + 1, s@.len() as int));
        let parts = split_n(t, n as nat);
        assert(parts == seq![t.subrange(0, k as int)] + split_n(
            t.subrange(k as int + 1, t.len() as int),
            (n - 1) as nat,
        ));
        assert(parts.drop_first() =~= split_n(
            t.subrange(k as int + 1, t.len() as int),
            (n - 1) as nat,
        ));
    }
    (e, Some(e + 1))
}

/// Bounds of the pieces of `s.splitn(n, char::is_whitespace)`.
fn split_n_bounds(s: &[char], n: usize) -> (r: Vec<(usize, usize)>)
    requires
        n >= 1,
    ensures
        r@.len() == split_n(s@, n as nat).len(),
        forall|k: int|
            0 <= k < r@.len() ==> (#[trigger] r@[k]).0 <= r@[k].1 <= s@.len() && s@.subrange(
                r@[k].0 as int,
                r@[k].1 as int,
            ) == split_n(s@, n as nat)[k],
{
    let mut out: Vec<(usize, usize)> = Vec::new();
    let mut i: usize = 0;
    let mut m: usize = n;
    let ghost acc: Seq<Seq<char>> = seq![];
    assert(s@.subrange(0, s@.len() as int) =~= s@);
    assert(acc + split_n(s@, n as nat) =~= split_n(s@, n as nat));
    loop
        invariant
            i <= s@.len(),
            m >= 1,
            out@.len() == acc.len(),
            forall|k: int|
                0 <= k < out@.len() ==> (#[trigger] out@[k]).0 <= out@[k].1 <= s@.len()
                    && s@.subrange(out@[k].0 as int, out@[k].1 as int) == acc[k],
            acc + split_n(s@.subrange(i as int, s@.len() as int), m as nat) == split_n(
                s@,
                n as nat,
            ),
        decreases s@.len() - i,
    {
        let ghost t = s@.subrange(i as int, s@.len() as int);
        let (e, nxt) = next_piece(s, i, m);
        out.push((i, e));
        proof {
            acc = acc.push(s@.subrange(i as int, e as int));
        }
        match nxt {
            None => {
                proof {
                    assert(split_n(t, m as nat) =~= seq![split_n(t, m as nat)[0]]);
                    assert(acc =~= split_n(s@, n as nat));
                }
                return out;
            },
            Some(j) => {
                proof {
                    let parts = split_n(t, m as nat);
                    assert(parts =~= seq![parts[0]] + parts.drop_first());
                    assert(acc + split_n(s@.subrange(j as int, s@.len() as int), (m - 1) as nat)
                        =~= split_n(s@, n as nat));
                }
                if m == 1 {
                    proof {
                        assert(false);
                    }
                    return out;
                }
                i = j;
                m = m - 1;
            },
        }
    }
}

/// The region one `maps` line describes.
pub fn parse_line(line: &[char]) -> (r: Option<MemoryRegion>)
    ensures
        match r {
            Some(reg) => parse_line_model(line@) == Some(reg@),
            None => parse_line_model(line@) is None,
        },
{
    let ghost parts = split_n(line@, 6);
    let pieces = split_n_bounds(line, 6);
    if pieces.len() < 2 {
        return None;
    }
    let (a0, e0) = pieces[0];
    let (a1, e1) = pieces[1];
    let path: Vec<char> = if pieces.len() >= 6 {
        let (a5, e5) = pieces[5];
        trimmed(vstd::slice::slice_subrange(line, a5, e5))
    } else {
        Vec::new()
    };
    let range = vstd::slice::slice_subrange(line, a0, e0);
    let perm_chars = vstd::slice::slice_subrange(line, a1, e1);
    assert(range@ == parts[0]);
    assert(perm_chars@ == parts[1]);
    let d = find_char(range, 0, '-');
    assert(range@.subrange(0, range@.len() as int) =~= range@);
    if d == range.len() {
        return None;
    }
    let lo = parse_int(vstd::slice::slice_subrange(range, 0, d), 16, 0, 0xffff_ffff_ffff_ffff);
    let hi = parse_int(
        vstd::slice::slice_subrange(range, d + 1, range.len()),
        16,
        0,
        0xffff_ffff_ffff_ffff,
    );
    match (lo, hi) {
        (Some(start), Some(end)) => {
            let ptext = string_of(perm_chars);
            let pb = ptext.as_str().as_bytes();
            let reg = MemoryRegion {
                start: start as u64,
                end: end as u64,
                read: pb.len() > 0 && pb[0] == 0x72,
                write: pb.len() > 1 && pb[1] == 0x77,
                executable: pb.len() > 2 && pb[2] == 0x78,
                shared: pb.len() > 3 && pb[3] == 0x73,
                path: string_of(path.as_slice()),
            };
            Some(reg)
        },
        _ => None,
    }
}

/// Parse the text of `/proc/<pid>/maps` into regions, in order; lines that
/// describe no region are skipped.
pub fn parse_maps(text: &str) -> (r: Vec<MemoryRegion>)
    ensures
        r@.len() == maps_model(text@).len(),
        forall|k: int| 0 <= k < r@.len() ==> (#[trigger] r@[k])@ == maps_model(text@)[k],
{
    let cs = chars_of(text);
    let s = cs.as_slice();
    let n = s.len();
    let mut out: Vec<MemoryRegion> = Vec::new();
    let ghost acc: Seq<RegionModel> = seq![];
    let mut i: usize = 0;
    assert(s@.subrange(0, n as int) =~= s@);
    assert(acc + maps_model(s@) =~= maps_model(s@));
    while i < n
        invariant
            i <= n,
            n == s@.len(),
            s@ == text@,
            out@.len() == acc.len(),
            forall|k: int| 0 <= k < out@.len() ==> (#[trigger] out@[k])@ == acc[k],
            acc + parse_lines_model(lines(s@.subrange(i as int, n as int))) == maps_model(text@),
        decreases n - i,
    {
        let ghost rest = s@.subrange(i as int, n as int);
        let j = find_char(s, i, '\n');
        proof {
            lemma_index_of_bound(rest, '\n');
        }
        let line: Vec<char> = if j == n {
            vstd::slice::slice_to_vec(vstd::slice::slice_subrange(s, i, j))
        } else {
            let mut l = vstd::slice::slice_to_vec(vstd::slice::slice_subrange(s, i, j));
            if l.len() > 0 && l[l.len() - 1] == '\r' {
                l.pop();
            }
            l
        };
        let ghost next_rest = if j == n {
            Seq::<char>::empty()
        } else {
            s@.subrange(j + 1, n as int)
        };
        proof {
            assert(rest.subrange(0, (j - i) as int) =~= s@.subrange(i as int, j as int));
            let ls = lines(rest);
            if j == n {
                assert(rest =~= s@.subrange(i as int, j as int));
                assert(ls == seq![rest]);
                assert(line@ == rest);
                assert(lines(next_rest) =~= Seq::<Seq<char>>::empty());
                assert(ls =~= seq![line@] + lines(next_rest));
            } else {
                assert(rest.subrange(j - i + 1, rest.len() as int) =~= next_rest);
                assert(line@ == strip_cr(s@.subrange(i as int, j as int)));
                assert(ls =~= seq![line@] + lines(next_rest));
            }
            assert(ls.drop_first() =~= lines(next_rest));
        }
        let parsed = parse_line(line.as_slice());
        match parsed {
            Some(reg) => {
                proof {
                    acc = acc.push(reg@);
                }
                out.push(reg);
            },
            None => {},
        }
        if j == n {
            i = n;
            proof {
                assert(s@.subrange(n as int, n as int) =~= next_rest);
            }
        } else {
            i = j + 1;
        }
        proof {
            assert(s@.subrange(i as int, n as int) =~= next_rest);
        }
    }
    proof {
        assert(s@.subrange(n as int, n as int) =~= Seq::<char>::empty());
        assert(acc =~= maps_model(text@));
    }
    out
}

} // verus!
