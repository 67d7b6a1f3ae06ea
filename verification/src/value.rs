//! Typed scan values.
//!
//! A [`ScanValue`] of a floating-point type carries the IEEE-754 bit pattern
//! of the number (`F32` holds an `f32`'s bits, `F64` an `f64`'s), which is
//! exactly what sits in memory; the library itself never computes with
//! floating-point numbers.

use vstd::prelude::*;
use crate::codec::{
    lemma_ne_bytes_of_value, lemma_ne_roundtrip, lemma_pow256_values, ne_bytes, ne_value,
    read_ne, write_ne,
};
use crate::numeral::{pad_zeros, parse_int, parse_int_spec, render, render_int, render_i64, render_u64, zero_pad};
use crate::text::{
    append_chars, chars_of, lower, split_words, string_of, to_lower, trim, trim_end, trim_start, trimmed,
    words,
};

verus! {

/// The numeric type the scanner interprets memory as.
#[derive(Copy, Clone, Debug, PartialEq, Eq, Hash, Structural)]
pub enum ScanType {
    I8,
    U8,
    I16,
    U16,
    I32,
    U32,
    I64,
    U64,
    F32,
    F64,
    /// A raw byte match of a given length: the result of an Array-of-Bytes
    /// or string search.
    Bytes(usize),
}

impl Default for ScanType {
    /// A 32-bit signed integer: the most common game value width.
    fn default() -> (r: Self)
        ensures
            r == ScanType::I32,
    {
        ScanType::I32
    }
}

/// Every supported type, in display order.
pub const ALL_TYPES: [ScanType; 10] = [
    ScanType::I8,
    ScanType::U8,
    ScanType::I16,
    ScanType::U16,
    ScanType::I32,
    ScanType::U32,
    ScanType::I64,
    ScanType::U64,
    ScanType::F32,
    ScanType::F64,
];

/// One representative type per byte-width group (pick the signedness with
/// [`ScanType::with_sign`]).
pub const SIZE_GROUPS: [ScanType; 6] = [
    ScanType::I8,
    ScanType::I16,
    ScanType::I32,
    ScanType::I64,
    ScanType::F32,
    ScanType::F64,
];

impl ScanType {
    /// Width in bytes.
    pub open spec fn width(self) -> nat {
        match self {
            ScanType::I8 | ScanType::U8 => 1,
            ScanType::I16 | ScanType::U16 => 2,
            ScanType::I32 | ScanType::U32 | ScanType::F32 => 4,
            ScanType::I64 | ScanType::U64 | ScanType::F64 => 8,
            ScanType::Bytes(n) => n as nat,
        }
    }

    pub open spec fn floating(self) -> bool {
        self is F32 || self is F64
    }

    pub open spec fn signed(self) -> bool {
        self is I8 || self is I16 || self is I32 || self is I64
    }

    /// Whether values of this type are integers.
    pub open spec fn integral(self) -> bool {
        !self.floating() && !(self is Bytes)
    }

    /// Smallest and largest value of an integer type.
    pub open spec fn min_value(self) -> int {
        match self {
            ScanType::I8 => -0x80,
            ScanType::I16 => -0x8000,
            ScanType::I32 => -0x8000_0000,
            ScanType::I64 => -0x8000_0000_0000_0000,
            _ => 0,
        }
    }

    pub open spec fn max_value(self) -> int {
        match self {
            ScanType::I8 => 0x7f,
            ScanType::U8 => 0xff,
            ScanType::I16 => 0x7fff,
            ScanType::U16 => 0xffff,
            ScanType::I32 => 0x7fff_ffff,
            ScanType::U32 => 0xffff_ffff,
            ScanType::I64 => 0x7fff_ffff_ffff_ffff,
            ScanType::U64 => 0xffff_ffff_ffff_ffff,
            _ => 0,
        }
    }

    pub open spec fn label_text(self) -> Seq<char> {
        match self {
            ScanType::I8 => "i8"@,
            ScanType::U8 => "u8"@,
            ScanType::I16 => "i16"@,
            ScanType::U16 => "u16"@,
            ScanType::I32 => "i32"@,
            ScanType::U32 => "u32"@,
            ScanType::I64 => "i64"@,
            ScanType::U64 => "u64"@,
            ScanType::F32 => "f32"@,
            ScanType::F64 => "f64"@,
            ScanType::Bytes(_) => "bytes"@,
        }
    }

    /// The signed or unsigned type of the same width; floats and byte
    /// patterns are returned unchanged.
    pub open spec fn sign_variant(self, signed: bool) -> ScanType {
        match self {
            ScanType::I8 | ScanType::U8 => if signed {
                ScanType::I8
            } else {
                ScanType::U8
            },
            ScanType::I16 | ScanType::U16 => if signed {
                ScanType::I16
            } else {
                ScanType::U16
            },
            ScanType::I32 | ScanType::U32 => if signed {
                ScanType::I32
            } else {
                ScanType::U32
            },
            ScanType::I64 | ScanType::U64 => if signed {
                ScanType::I64
            } else {
                ScanType::U64
            },
            other => other,
        }
    }

    pub open spec fn friendly_text(self) -> Seq<char> {
        match self {
            ScanType::I8 | ScanType::U8 => "Byte"@,
            ScanType::I16 | ScanType::U16 => "2 Bytes"@,
            ScanType::I32 | ScanType::U32 => "4 Bytes"@,
            ScanType::I64 | ScanType::U64 => "8 Bytes"@,
            ScanType::F32 => "Float"@,
            ScanType::F64 => "Double"@,
            ScanType::Bytes(n) => "Array of Bytes ("@ + render(n as nat, 10, false) + ")"@,
        }
    }

    /// Width in bytes.
    pub fn size(self) -> (r: usize)
        ensures
            r == self.width(),
    {
        match self {
            ScanType::I8 | ScanType::U8 => 1,
            ScanType::I16 | ScanType::U16 => 2,
            ScanType::I32 | ScanType::U32 | ScanType::F32 => 4,
            ScanType::I64 | ScanType::U64 | ScanType::F64 => 8,
            ScanType::Bytes(n) => n,
        }
    }

    /// Short label, e.g. `"i32"`.
    pub fn label(self) -> (r: &'static str)
        ensures
            r@ == self.label_text(),
    {
        match self {
            ScanType::I8 => "i8",
            ScanType::U8 => "u8",
            ScanType::I16 => "i16",
            ScanType::U16 => "u16",
            ScanType::I32 => "i32",
            ScanType::U32 => "u32",
            ScanType::I64 => "i64",
            ScanType::U64 => "u64",
            ScanType::F32 => "f32",
            ScanType::F64 => "f64",
            ScanType::Bytes(_) => "bytes",
        }
    }

    pub fn is_float(self) -> (r: bool)
        ensures
            r == self.floating(),
    {
        matches!(self, ScanType::F32 | ScanType::F64)
    }

    /// Whether values of this type are integers.
    pub fn is_int(self) -> (r: bool)
        ensures
            r == self.integral(),
    {
        !matches!(self, ScanType::F32 | ScanType::F64 | ScanType::Bytes(_))
    }

    pub fn is_signed(self) -> (r: bool)
        ensures
            r == self.signed(),
    {
        matches!(self, ScanType::I8 | ScanType::I16 | ScanType::I32 | ScanType::I64)
    }

    /// The signed or unsigned variant at this same byte width; a no-op for
    /// floats and byte patterns, which have no sign.
    pub fn with_sign(self, signed: bool) -> (r: ScanType)
        ensures
            r == self.sign_variant(signed),
    {
        match self {
            ScanType::I8 | ScanType::U8 => {
                if signed {
                    ScanType::I8
                } else {
                    ScanType::U8
                }
            },
            ScanType::I16 | ScanType::U16 => {
                if signed {
                    ScanType::I16
                } else {
                    ScanType::U16
                }
            },
            ScanType::I32 | ScanType::U32 => {
                if signed {
                    ScanType::I32
                } else {
                    ScanType::U32
                }
            },
            ScanType::I64 | ScanType::U64 => {
                if signed {
                    ScanType::I64
                } else {
                    ScanType::U64
                }
            },
            other => other,
        }
    }

    /// Beginner-friendly name for the value-type picker, e.g. `"4 Bytes"`,
    /// in Cheat Engine's terminology.
    pub fn friendly_label(self) -> (r: String)
        ensures
            r@ == self.friendly_text(),
    {
        match self {
            ScanType::I8 | ScanType::U8 => String::from_str("Byte"),
            ScanType::I16 | ScanType::U16 => String::from_str("2 Bytes"),
            ScanType::I32 | ScanType::U32 => String::from_str("4 Bytes"),
            ScanType::I64 | ScanType::U64 => String::from_str("8 Bytes"),
            ScanType::F32 => String::from_str("Float"),
            ScanType::F64 => String::from_str("Double"),
            ScanType::Bytes(n) => {
                let digits = render_u64(n as u64, 10, false);
                let mut s = String::from_str("Array of Bytes (");
                let d = string_of(digits.as_slice());
                s.append(d.as_str());
                s.append(")");
                s
            },
        }
    }

    /// Parse a label such as `"i32"` / `"int"` / `"float"` back into a type.
    pub fn from_label(s: &str) -> (r: Option<ScanType>)
        ensures
            r == type_named(lower(trim(s@))),
    {
        let cs = chars_of(s);
        let t = to_lower(trimmed(cs.as_slice()).as_slice());
        let t = t.as_slice();
        if eq_lit(t, "i8") || eq_lit(t, "int8") || eq_lit(t, "sbyte") {
            Some(ScanType::I8)
        } else if eq_lit(t, "u8") || eq_lit(t, "uint8") || eq_lit(t, "byte") {
            Some(ScanType::U8)
        } else if eq_lit(t, "i16") || eq_lit(t, "int16") || eq_lit(t, "short") {
            Some(ScanType::I16)
        } else if eq_lit(t, "u16") || eq_lit(t, "uint16") || eq_lit(t, "ushort") {
            Some(ScanType::U16)
        } else if eq_lit(t, "i32") || eq_lit(t, "int32") || eq_lit(t, "int") {
            Some(ScanType::I32)
        } else if eq_lit(t, "u32") || eq_lit(t, "uint32") || eq_lit(t, "uint") {
            Some(ScanType::U32)
        } else if eq_lit(t, "i64") || eq_lit(t, "int64") || eq_lit(t, "long") {
            Some(ScanType::I64)
        } else if eq_lit(t, "u64") || eq_lit(t, "uint64") || eq_lit(t, "ulong") {
            Some(ScanType::U64)
        } else if eq_lit(t, "f32") || eq_lit(t, "float") {
            Some(ScanType::F32)
        } else if eq_lit(t, "f64") || eq_lit(t, "double") {
            Some(ScanType::F64)
        } else {
            None
        }
    }

    /// Parse a user-entered value string into a [`ScanValue`] of this type.
    ///
    /// Integers follow Rust's decimal integer syntax after trimming; a byte
    /// pattern is space-separated hex (`"48 65 6C"`) when it parses as such,
    /// otherwise the UTF-8 bytes of the trimmed text. Floating-point text is
    /// handled outside this library.
    pub fn parse(self, s: &str) -> (r: Option<ScanValue>)
        requires
            !self.floating(),
        ensures
            match r {
                Some(v) => parse_model(self, s@) == Some(v@),
                None => parse_model(self, s@) is None,
            },
    {
        let cs = chars_of(s);
        let t = trimmed(cs.as_slice());
        let t = t.as_slice();
        match self {
            ScanType::Bytes(_) => {
                match parse_hex_bytes(t) {
                    Some(b) => Some(ScanValue::Bytes(b)),
                    None => {
                        let text = string_of(t);
                        let bytes = text.as_str().as_bytes();
                        Some(ScanValue::Bytes(vstd::slice::slice_to_vec(bytes)))
                    },
                }
            },
            _ => {
                let lo: i128 = match self {
                    ScanType::I8 => -0x80,
                    ScanType::I16 => -0x8000,
                    ScanType::I32 => -0x8000_0000,
                    ScanType::I64 => -0x8000_0000_0000_0000,
                    _ => 0,
                };
                let hi: i128 = match self {
                    ScanType::I8 => 0x7f,
                    ScanType::U8 => 0xff,
                    ScanType::I16 => 0x7fff,
                    ScanType::U16 => 0xffff,
                    ScanType::I32 => 0x7fff_ffff,
                    ScanType::U32 => 0xffff_ffff,
                    ScanType::I64 => 0x7fff_ffff_ffff_ffff,
                    _ => 0xffff_ffff_ffff_ffff,
                };
                match parse_int(t, 10, lo, hi) {
                    Some(v) => Some(ScanValue::from_int(self, v)),
                    None => None,
                }
            },
        }
    }
}

/// The type a (lower-cased, trimmed) label names.
pub open spec fn type_named(t: Seq<char>) -> Option<ScanType> {
    if t == "i8"@ || t == "int8"@ || t == "sbyte"@ {
        Some(ScanType::I8)
    } else if t == "u8"@ || t == "uint8"@ || t == "byte"@ {
        Some(ScanType::U8)
    } else if t == "i16"@ || t == "int16"@ || t == "short"@ {
        Some(ScanType::I16)
    } else if t == "u16"@ || t == "uint16"@ || t == "ushort"@ {
        Some(ScanType::U16)
    } else if t == "i32"@ || t == "int32"@ || t == "int"@ {
        Some(ScanType::I32)
    } else if t == "u32"@ || t == "uint32"@ || t == "uint"@ {
        Some(ScanType::U32)
    } else if t == "i64"@ || t == "int64"@ || t == "long"@ {
        Some(ScanType::I64)
    } else if t == "u64"@ || t == "uint64"@ || t == "ulong"@ {
        Some(ScanType::U64)
    } else if t == "f32"@ || t == "float"@ {
        Some(ScanType::F32)
    } else if t == "f64"@ || t == "double"@ {
        Some(ScanType::F64)
    } else {
        None
    }
}

/// Whether the characters `t` spell the literal `lit`.
pub fn eq_lit(t: &[char], lit: &str) -> (r: bool)
    ensures
        r == (t@ == lit@),
{
    let l = chars_of(lit);
    if t.len() != l.len() {
        return false;
    }
    let mut i: usize = 0;
    while i < t.len()
        invariant
            i <= t@.len(),
            t@.len() == l@.len(),
            l@ == lit@,
            forall|j: int| 0 <= j < i ==> t@[j] == l@[j],
        decreases t@.len() - i,
    {
        if t[i] != l[i] {
            assert(t@[i as int] != l@[i as int]);
            return false;
        }
        i = i + 1;
    }
    assert(t@ =~= l@);
    true
}

/// Strict space-separated hex bytes, e.g. `"48 65 6C"` is `[0x48, 0x65, 0x6C]`:
/// every whitespace-separated token must be a hex `u8`, and there must be at
/// least one.
pub open spec fn hex_bytes_model(s: Seq<char>) -> Option<Seq<u8>> {
    let ws = words(s);
    if ws.len() == 0 {
        None
    } else if forall|i: int| 0 <= i < ws.len() ==> (#[trigger] parse_int_spec(ws[i], 16, 0, 255)) is Some {
        Some(Seq::new(ws.len(), |i: int| parse_int_spec(ws[i], 16, 0, 255).unwrap() as u8))
    } else {
        None
    }
}

pub fn parse_hex_bytes(s: &[char]) -> (r: Option<Vec<u8>>)
    ensures
        match r {
            Some(b) => hex_bytes_model(s@) == Some(b@),
            None => hex_bytes_model(s@) is None,
        },
{
    let ws = split_words(s);
    let ghost model = words(s@);
    if ws.len() == 0 {
        return None;
    }
    let mut out: Vec<u8> = Vec::new();
    let mut i: usize = 0;
    while i < ws.len()
        invariant
            i <= ws@.len(),
            ws@.len() == model.len(),
            model == words(s@),
            forall|k: int| 0 <= k < ws@.len() ==> #[trigger] ws@[k]@ == model[k],
            out@.len() == i,
            forall|k: int|
                0 <= k < i ==> (#[trigger] parse_int_spec(model[k], 16, 0, 255)) is Some && out@[k]
                    == parse_int_spec(model[k], 16, 0, 255).unwrap() as u8,
        decreases ws@.len() - i,
    {
        match parse_int(ws[i].as_slice(), 16, 0, 255) {
            Some(b) => {
                out.push(b as u8);
            },
            None => {
                return None;
            },
        }
        i = i + 1;
    }
    assert(out@ =~= Seq::new(model.len(), |k: int| parse_int_spec(model[k], 16, 0, 255).unwrap() as u8));
    Some(out)
}

/// What [`ScanType::parse`] yields for a non-floating type.
pub open spec fn parse_model(ty: ScanType, s: Seq<char>) -> Option<ValueModel> {
    let t = trim(s);
    match ty {
        ScanType::Bytes(_) => Some(
            ValueModel::Bytes(
                match hex_bytes_model(t) {
                    Some(b) => b,
                    None => vstd::utf8::encode_utf8(t),
                },
            ),
        ),
        _ => match parse_int_spec(t, 10, ty.min_value(), ty.max_value()) {
            Some(v) => Some(int_model(ty, v)),
            None => None,
        },
    }
}

/// A type's label reads back as that type; the label of a byte pattern
/// names none.
pub proof fn law_label_roundtrip(t: ScanType)
    ensures
        !(t is Bytes) ==> type_named(lower(trim(t.label_text()))) == Some(t),
        t is Bytes ==> type_named(lower(trim(t.label_text()))) is None,
{
    reveal_strlit("i8");
    reveal_strlit("int8");
    reveal_strlit("sbyte");
    reveal_strlit("u8");
    reveal_strlit("uint8");
    reveal_strlit("byte");
    reveal_strlit("i16");
    reveal_strlit("int16");
    reveal_strlit("short");
    reveal_strlit("u16");
    reveal_strlit("uint16");
    reveal_strlit("ushort");
    reveal_strlit("i32");
    reveal_strlit("int32");
    reveal_strlit("int");
    reveal_strlit("u32");
    reveal_strlit("uint32");
    reveal_strlit("uint");
    reveal_strlit("i64");
    reveal_strlit("int64");
    reveal_strlit("long");
    reveal_strlit("u64");
    reveal_strlit("uint64");
    reveal_strlit("ulong");
    reveal_strlit("f32");
    reveal_strlit("float");
    reveal_strlit("f64");
    reveal_strlit("double");
    reveal_strlit("bytes");
    let l = t.label_text();
    assert(trim_start(l) == l);
    assert(trim_end(l) == l);
    assert(lower(l) =~= l);
}

/// Equality without floating-point values: integers compare by the number
/// they denote, whatever their widths and signs; byte patterns compare
/// byte for byte.
pub proof fn law_exact_eq(a: ValueModel, b: ValueModel)
    ensures
        (a.number() is Some && b.number() is Some) ==> (exact_eq(a, b) <==> a.number()
            == b.number()),
        (a is Bytes && b is Bytes) ==> (exact_eq(a, b) <==> a == b),
{
}

/// Reading a value ignores whitespace around the text; an integer type
/// reads a value of that type; a byte pattern always reads (as hex bytes,
/// else as the UTF-8 bytes of the trimmed text).
pub proof fn law_parse_shape(t: ScanType, s: Seq<char>)
    ensures
        parse_model(t, trim(s)) == parse_model(t, s),
        t is Bytes ==> parse_model(t, s) is Some,
        t.integral() ==> (parse_model(t, s) matches Some(v) ==> v.kind() == t),
{
    crate::text::lemma_trim_idempotent(s);
}

/// The value of integer type `ty` whose number is `v`.
pub open spec fn int_model(ty: ScanType, v: int) -> ValueModel {
    match ty {
        ScanType::I8 => ValueModel::I8(v as i8),
        ScanType::U8 => ValueModel::U8(v as u8),
        ScanType::I16 => ValueModel::I16(v as i16),
        ScanType::U16 => ValueModel::U16(v as u16),
        ScanType::I32 => ValueModel::I32(v as i32),
        ScanType::U32 => ValueModel::U32(v as u32),
        ScanType::I64 => ValueModel::I64(v as i64),
        _ => ValueModel::U64(v as u64),
    }
}

/// A concrete value read from (or to be written to) memory.
#[derive(Clone, Debug)]
pub enum ScanValue {
    I8(i8),
    U8(u8),
    I16(i16),
    U16(u16),
    I32(i32),
    U32(u32),
    I64(i64),
    U64(u64),
    /// The bit pattern of an `f32`.
    F32(u32),
    /// The bit pattern of an `f64`.
    F64(u64),
    /// A raw byte match (Array-of-Bytes / string result).
    Bytes(Vec<u8>),
}

/// The mathematical content of a [`ScanValue`].
pub enum ValueModel {
    I8(i8),
    U8(u8),
    I16(i16),
    U16(u16),
    I32(i32),
    U32(u32),
    I64(i64),
    U64(u64),
    F32(u32),
    F64(u64),
    Bytes(Seq<u8>),
}

impl View for ScanValue {
    type V = ValueModel;

    open spec fn view(&self) -> ValueModel {
        match self {
            ScanValue::I8(v) => ValueModel::I8(*v),
            ScanValue::U8(v) => ValueModel::U8(*v),
            ScanValue::I16(v) => ValueModel::I16(*v),
            ScanValue::U16(v) => ValueModel::U16(*v),
            ScanValue::I32(v) => ValueModel::I32(*v),
            ScanValue::U32(v) => ValueModel::U32(*v),
            ScanValue::I64(v) => ValueModel::I64(*v),
            ScanValue::U64(v) => ValueModel::U64(*v),
            ScanValue::F32(v) => ValueModel::F32(*v),
            ScanValue::F64(v) => ValueModel::F64(*v),
            ScanValue::Bytes(v) => ValueModel::Bytes(v@),
        }
    }
}

/// Two's-complement reading of the unsigned `x` modulo `m`.
pub open spec fn signed_of(x: nat, m: nat) -> int {
    if 2 * x >= m {
        x - m
    } else {
        x as int
    }
}

/// Unsigned bit pattern of a signed `v` modulo `m`.
pub open spec fn bits_of(v: int, m: nat) -> nat {
    if v < 0 {
        (v + m) as nat
    } else {
        v as nat
    }
}

impl ValueModel {
    pub open spec fn kind(self) -> ScanType {
        match self {
            ValueModel::I8(_) => ScanType::I8,
            ValueModel::U8(_) => ScanType::U8,
            ValueModel::I16(_) => ScanType::I16,
            ValueModel::U16(_) => ScanType::U16,
            ValueModel::I32(_) => ScanType::I32,
            ValueModel::U32(_) => ScanType::U32,
            ValueModel::I64(_) => ScanType::I64,
            ValueModel::U64(_) => ScanType::U64,
            ValueModel::F32(_) => ScanType::F32,
            ValueModel::F64(_) => ScanType::F64,
            ValueModel::Bytes(b) => ScanType::Bytes(b.len() as usize),
        }
    }

    /// The unsigned pattern of bits that a numeric value occupies.
    pub open spec fn bits(self) -> nat {
        match self {
            ValueModel::I8(v) => bits_of(v as int, 0x100),
            ValueModel::U8(v) => v as nat,
            ValueModel::I16(v) => bits_of(v as int, 0x1_0000),
            ValueModel::U16(v) => v as nat,
            ValueModel::I32(v) => bits_of(v as int, 0x1_0000_0000),
            ValueModel::U32(v) => v as nat,
            ValueModel::I64(v) => bits_of(v as int, 0x1_0000_0000_0000_0000),
            ValueModel::U64(v) => v as nat,
            ValueModel::F32(v) => v as nat,
            ValueModel::F64(v) => v as nat,
            ValueModel::Bytes(_) => 0,
        }
    }

    /// The bytes this value occupies in memory (native byte order).
    pub open spec fn encoding(self) -> Seq<u8> {
        match self {
            ValueModel::Bytes(b) => b,
            _ => ne_bytes(self.bits(), self.kind().width()),
        }
    }

    /// The integer an integer-typed value denotes.
    pub open spec fn number(self) -> Option<int> {
        match self {
            ValueModel::I8(v) => Some(v as int),
            ValueModel::U8(v) => Some(v as int),
            ValueModel::I16(v) => Some(v as int),
            ValueModel::U16(v) => Some(v as int),
            ValueModel::I32(v) => Some(v as int),
            ValueModel::U32(v) => Some(v as int),
            ValueModel::I64(v) => Some(v as int),
            ValueModel::U64(v) => Some(v as int),
            _ => None,
        }
    }

    /// Whether a byte pattern fits the `usize` length of its type.
    pub open spec fn wf(self) -> bool {
        match self {
            ValueModel::Bytes(b) => b.len() <= usize::MAX,
            _ => true,
        }
    }
}

/// The value of type `ty` stored in exactly the bytes `s` (`s.len()` is the
/// type's width).
pub open spec fn decode_model(ty: ScanType, s: Seq<u8>) -> ValueModel {
    let x = ne_value(s);
    match ty {
        ScanType::I8 => ValueModel::I8(signed_of(x, 0x100) as i8),
        ScanType::U8 => ValueModel::U8(x as u8),
        ScanType::I16 => ValueModel::I16(signed_of(x, 0x1_0000) as i16),
        ScanType::U16 => ValueModel::U16(x as u16),
        ScanType::I32 => ValueModel::I32(signed_of(x, 0x1_0000_0000) as i32),
        ScanType::U32 => ValueModel::U32(x as u32),
        ScanType::I64 => ValueModel::I64(signed_of(x, 0x1_0000_0000_0000_0000) as i64),
        ScanType::U64 => ValueModel::U64(x as u64),
        ScanType::F32 => ValueModel::F32(x as u32),
        ScanType::F64 => ValueModel::F64(x as u64),
        ScanType::Bytes(_) => ValueModel::Bytes(s),
    }
}

/// Result of decoding `ty` from the front of `bytes` (`ScanValue::from_ne_bytes`).
pub open spec fn decode_prefix(ty: ScanType, bytes: Seq<u8>) -> Option<ValueModel> {
    if bytes.len() < ty.width() {
        None
    } else {
        Some(decode_model(ty, bytes.take(ty.width() as int)))
    }
}

/// Equality used by exact / unchanged / changed comparisons when the left
/// value is not floating-point: byte patterns compare bytewise, everything
/// else by integer value (a byte pattern counting as 0).
pub open spec fn exact_eq(a: ValueModel, b: ValueModel) -> bool {
    match (a, b) {
        (ValueModel::Bytes(x), ValueModel::Bytes(y)) => x == y,
        _ => a.number().unwrap_or(0) == b.number().unwrap_or(0),
    }
}

/// Decoding what a value encodes gives the value back.
pub proof fn lemma_decode_encode(v: ValueModel)
    requires
        v.wf(),
    ensures
        v.encoding().len() == v.kind().width(),
        decode_model(v.kind(), v.encoding()) == v,
{
    lemma_pow256_values();
    match v {
        ValueModel::Bytes(b) => {},
        _ => {
            lemma_ne_roundtrip(v.bits(), v.kind().width());
        },
    }
}

/// Encoding what a width-sized run of bytes decodes to gives the bytes back.
pub proof fn lemma_encode_decode(ty: ScanType, s: Seq<u8>)
    requires
        s.len() == ty.width(),
    ensures
        decode_model(ty, s).kind() == ty,
        decode_model(ty, s).encoding() == s,
{
    lemma_pow256_values();
    lemma_ne_bytes_of_value(s);
}

impl ScanValue {
    /// The value of integer type `ty` whose number is `v`.
    fn from_int(ty: ScanType, v: i128) -> (r: ScanValue)
        requires
            ty.integral(),
            ty.min_value() <= v <= ty.max_value(),
        ensures
            r@ == int_model(ty, v as int),
    {
        match ty {
            ScanType::I8 => ScanValue::I8(v as i8),
            ScanType::U8 => ScanValue::U8(v as u8),
            ScanType::I16 => ScanValue::I16(v as i16),
            ScanType::U16 => ScanValue::U16(v as u16),
            ScanType::I32 => ScanValue::I32(v as i32),
            ScanType::U32 => ScanValue::U32(v as u32),
            ScanType::I64 => ScanValue::I64(v as i64),
            _ => ScanValue::U64(v as u64),
        }
    }

    pub fn ty(&self) -> (r: ScanType)
        ensures
            r == self@.kind(),
    {
        match self {
            ScanValue::I8(_) => ScanType::I8,
            ScanValue::U8(_) => ScanType::U8,
            ScanValue::I16(_) => ScanType::I16,
            ScanValue::U16(_) => ScanType::U16,
            ScanValue::I32(_) => ScanType::I32,
            ScanValue::U32(_) => ScanType::U32,
            ScanValue::I64(_) => ScanType::I64,
            ScanValue::U64(_) => ScanType::U64,
            ScanValue::F32(_) => ScanType::F32,
            ScanValue::F64(_) => ScanType::F64,
            ScanValue::Bytes(v) => ScanType::Bytes(v.len()),
        }
    }

    /// Decode a value of `ty` from the front of a native-endian byte slice;
    /// `None` if `bytes` is shorter than the type width.
    pub fn from_ne_bytes(ty: ScanType, bytes: &[u8]) -> (r: Option<ScanValue>)
        ensures
            match r {
                Some(v) => decode_prefix(ty, bytes@) == Some(v@),
                None => decode_prefix(ty, bytes@) is None,
            },
    {
        let n = ty.size();
        if bytes.len() < n {
            return None;
        }
        proof {
            lemma_pow256_values();
        }
        let v = match ty {
            ScanType::Bytes(_) => {
                ScanValue::Bytes(vstd::slice::slice_to_vec(vstd::slice::slice_subrange(bytes, 0, n)))
            },
            _ => {
                let x = read_ne(bytes, n);
                proof {
                    lemma_ne_bytes_of_value(bytes@.take(n as int));
                }
                match ty {
                    ScanType::I8 => ScanValue::I8(
                        if x >= 0x80 {
                            (x as i64 - 0x100) as i8
                        } else {
                            x as i8
                        },
                    ),
                    ScanType::U8 => ScanValue::U8(x as u8),
                    ScanType::I16 => ScanValue::I16(
                        if x >= 0x8000 {
                            (x as i64 - 0x1_0000) as i16
                        } else {
                            x as i16
                        },
                    ),
                    ScanType::U16 => ScanValue::U16(x as u16),
                    ScanType::I32 => ScanValue::I32(
                        if x >= 0x8000_0000 {
                            (x as i64 - 0x1_0000_0000) as i32
                        } else {
                            x as i32
                        },
                    ),
                    ScanType::U32 => ScanValue::U32(x as u32),
                    ScanType::I64 => ScanValue::I64(
                        if x >= 0x8000_0000_0000_0000 {
                            (x as i128 - 0x1_0000_0000_0000_0000) as i64
                        } else {
                            x as i64
                        },
                    ),
                    ScanType::U64 => ScanValue::U64(x),
                    ScanType::F32 => ScanValue::F32(x as u32),
                    _ => ScanValue::F64(x),
                }
            },
        };
        proof {
            if ty is Bytes {
                assert(bytes@.subrange(0, n as int) =~= bytes@.take(n as int));
            }
        }
        Some(v)
    }

    /// Native-endian byte encoding, ready to write into memory.
    pub fn to_ne_bytes(&self) -> (r: Vec<u8>)
        ensures
            r@ == self@.encoding(),
    {
        proof {
            lemma_pow256_values();
        }
        match self {
            ScanValue::I8(v) => write_ne(
                if *v < 0 {
                    (*v as i64 + 0x100) as u64
                } else {
                    *v as u64
                },
                1,
            ),
            ScanValue::U8(v) => write_ne(*v as u64, 1),
            ScanValue::I16(v) => write_ne(
                if *v < 0 {
                    (*v as i64 + 0x1_0000) as u64
                } else {
                    *v as u64
                },
                2,
            ),
            ScanValue::U16(v) => write_ne(*v as u64, 2),
            ScanValue::I32(v) => write_ne(
                if *v < 0 {
                    (*v as i64 + 0x1_0000_0000) as u64
                } else {
                    *v as u64
                },
                4,
            ),
            ScanValue::U32(v) => write_ne(*v as u64, 4),
            ScanValue::I64(v) => write_ne(
                if *v < 0 {
                    (*v as i128 + 0x1_0000_0000_0000_0000) as u64
                } else {
                    *v as u64
                },
                8,
            ),
            ScanValue::U64(v) => write_ne(*v, 8),
            ScanValue::F32(v) => write_ne(*v as u64, 4),
            ScanValue::F64(v) => write_ne(*v, 8),
            ScanValue::Bytes(v) => vstd::slice::slice_to_vec(v.as_slice()),
        }
    }

    /// A copy of this value.
    pub fn duplicate(&self) -> (r: ScanValue)
        ensures
            r@ == self@,
    {
        match self {
            ScanValue::I8(v) => ScanValue::I8(*v),
            ScanValue::U8(v) => ScanValue::U8(*v),
            ScanValue::I16(v) => ScanValue::I16(*v),
            ScanValue::U16(v) => ScanValue::U16(*v),
            ScanValue::I32(v) => ScanValue::I32(*v),
            ScanValue::U32(v) => ScanValue::U32(*v),
            ScanValue::I64(v) => ScanValue::I64(*v),
            ScanValue::U64(v) => ScanValue::U64(*v),
            ScanValue::F32(v) => ScanValue::F32(*v),
            ScanValue::F64(v) => ScanValue::F64(*v),
            ScanValue::Bytes(v) => ScanValue::Bytes(vstd::slice::slice_to_vec(v.as_slice())),
        }
    }

    /// The integer value of an integer-typed value, 0 for a byte pattern.
    fn int_key(&self) -> (r: i128)
        requires
            !self@.kind().floating(),
        ensures
            r == self@.number().unwrap_or(0),
    {
        match self {
            ScanValue::I8(v) => *v as i128,
            ScanValue::U8(v) => *v as i128,
            ScanValue::I16(v) => *v as i128,
            ScanValue::U16(v) => *v as i128,
            ScanValue::I32(v) => *v as i128,
            ScanValue::U32(v) => *v as i128,
            ScanValue::I64(v) => *v as i128,
            ScanValue::U64(v) => *v as i128,
            _ => 0,
        }
    }

    /// Equality for "exact" / "unchanged" / "changed" comparisons: integers
    /// compare by value, byte matches bytewise. Comparisons involving a
    /// floating-point value use a tolerance and are made outside this library.
    pub fn approx_eq(&self, other: &ScanValue) -> (r: bool)
        requires
            !self@.kind().floating(),
            !other@.kind().floating(),
        ensures
            r == exact_eq(self@, other@),
    {
        match (self, other) {
            (ScanValue::Bytes(a), ScanValue::Bytes(b)) => bytes_eq(a.as_slice(), b.as_slice()),
            _ => self.int_key() == other.int_key(),
        }
    }
}

/// Bytewise equality of two slices.
pub fn bytes_eq(a: &[u8], b: &[u8]) -> (r: bool)
    ensures
        r == (a@ == b@),
{
    if a.len() != b.len() {
        return false;
    }
    let mut i: usize = 0;
    while i < a.len()
        invariant
            i <= a@.len(),
            a@.len() == b@.len(),
            forall|j: int| 0 <= j < i ==> a@[j] == b@[j],
        decreases a@.len() - i,
    {
        if a[i] != b[i] {
            assert(a@[i as int] != b@[i as int]);
            return false;
        }
        i = i + 1;
    }
    assert(a@ =~= b@);
    true
}


/// `std::str::from_utf8`: the text that `bytes` encode, where they are valid
/// UTF-8. Stated: the result is present exactly for valid UTF-8, and is its
/// decoding.
#[verifier::external_body]
pub(crate) fn utf8_text(bytes: &[u8]) -> (r: Option<String>)
    ensures
        match r {
            Some(s) => vstd::utf8::valid_utf8(bytes@) && s@ == vstd::utf8::decode_utf8(bytes@),
            None => !vstd::utf8::valid_utf8(bytes@),
        },
{
    match std::str::from_utf8(bytes) {
        Ok(s) => Some(s.to_string()),
        Err(_) => None,
    }
}

/// A byte as two upper-case hexadecimal digits.
pub open spec fn hex_pair(b: u8) -> Seq<char> {
    zero_pad(render(b as nat, 16, true), 2)
}

/// Bytes as upper-case hexadecimal pairs separated by single spaces.
pub open spec fn hex_join(bs: Seq<u8>) -> Seq<char>
    decreases bs.len(),
{
    if bs.len() == 0 {
        seq![]
    } else if bs.len() == 1 {
        hex_pair(bs[0])
    } else {
        hex_join(bs.drop_last()) + seq![' '] + hex_pair(bs.last())
    }
}

/// How a byte match is shown: as text where it is valid UTF-8 holding no
/// NUL (the common case for a string search), else in hexadecimal.
pub open spec fn bytes_text(bs: Seq<u8>) -> Seq<char> {
    if vstd::utf8::valid_utf8(bs) && !vstd::utf8::decode_utf8(bs).contains('\0') {
        vstd::utf8::decode_utf8(bs)
    } else {
        hex_join(bs)
    }
}

/// How a value of a non-floating type is shown.
pub open spec fn value_text(v: ValueModel) -> Seq<char> {
    match v {
        ValueModel::Bytes(bs) => bytes_text(bs),
        _ => render_int(v.number().unwrap_or(0)),
    }
}

fn hex_join_exec(bs: &[u8]) -> (r: Vec<char>)
    ensures
        r@ == hex_join(bs@),
{
    let mut out: Vec<char> = Vec::new();
    let mut i: usize = 0;
    while i < bs.len()
        invariant
            i <= bs@.len(),
            out@ == hex_join(bs@.subrange(0, i as int)),
        decreases bs@.len() - i,
    {
        let ghost before = out@;
        if i > 0 {
            out.push(' ');
        }
        let pair = pad_zeros(render_u64(bs[i] as u64, 16, true), 2);
        append_chars(&mut out, pair.as_slice());
        proof {
            let s = bs@.subrange(0, i + 1);
            assert(s.drop_last() =~= bs@.subrange(0, i as int));
            assert(s.last() == bs@[i as int]);
            if i == 0 {
                assert(out@ =~= hex_pair(s[0]));
            } else {
                assert(out@ =~= hex_join(s.drop_last()) + seq![' '] + hex_pair(s.last()));
            }
        }
        i = i + 1;
    }
    assert(bs@.subrange(0, bs@.len() as int) =~= bs@);
    out
}

fn has_nul(s: &str) -> (r: bool)
    ensures
        r == s@.contains('\0'),
{
    let cs = chars_of(s);
    let mut i: usize = 0;
    while i < cs.len()
        invariant
            i <= cs@.len(),
            cs@ == s@,
            forall|j: int| 0 <= j < i ==> cs@[j] != '\0',
        decreases cs@.len() - i,
    {
        if cs[i] == '\0' {
            assert(s@[i as int] == '\0');
            return true;
        }
        i = i + 1;
    }
    false
}

impl ScanValue {
    /// How the value is shown (`Display`); floating-point values are shown
    /// by the caller, from their bit patterns.
    pub fn display_text(&self) -> (r: String)
        requires
            !self@.kind().floating(),
        ensures
            r@ == value_text(self@),
    {
        match self {
            ScanValue::Bytes(v) => {
                match utf8_text(v.as_slice()) {
                    Some(s) => {
                        if !has_nul(s.as_str()) {
                            return s;
                        }
                    },
                    None => {},
                }
                string_of(hex_join_exec(v.as_slice()).as_slice())
            },
            ScanValue::I8(x) => string_of(render_i64(*x as i64).as_slice()),
            ScanValue::U8(x) => string_of(render_i64(*x as i64).as_slice()),
            ScanValue::I16(x) => string_of(render_i64(*x as i64).as_slice()),
            ScanValue::U16(x) => string_of(render_i64(*x as i64).as_slice()),
            ScanValue::I32(x) => string_of(render_i64(*x as i64).as_slice()),
            ScanValue::U32(x) => string_of(render_i64(*x as i64).as_slice()),
            ScanValue::I64(x) => string_of(render_i64(*x).as_slice()),
            ScanValue::U64(x) => {
                let d = render_u64(*x, 10, false);
                proof {
                    assert(render_int(*x as int) == render(*x as nat, 10, false));
                }
                string_of(d.as_slice())
            },
            _ => String::new(),
        }
    }
}

} // verus!
