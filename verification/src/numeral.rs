//! Integer numerals: parsing in the grammar of Rust's `from_str` /
//! `from_str_radix`, and decimal / hexadecimal rendering.

use vstd::prelude::*;

verus! {

/// The value of `c` as a digit in `radix` (10 or 16), if it is one.
pub open spec fn digit_of(c: char, radix: nat) -> Option<nat> {
    let u = c as u32;
    if 0x30 <= u <= 0x39 {
        Some((u - 0x30) as nat)
    } else if radix == 16 && 0x61 <= u <= 0x66 {
        Some((u - 0x61 + 10) as nat)
    } else if radix == 16 && 0x41 <= u <= 0x46 {
        Some((u - 0x41 + 10) as nat)
    } else {
        None
    }
}

pub open spec fn all_digits(s: Seq<char>, radix: nat) -> bool {
    forall|i: int| 0 <= i < s.len() ==> (#[trigger] digit_of(s[i], radix)) is Some
}

/// Big-endian value of a digit string.
pub open spec fn digits_value(s: Seq<char>, radix: nat) -> nat
    decreases s.len(),
{
    if s.len() == 0 {
        0
    } else {
        digits_value(s.drop_last(), radix) * radix + digit_of(s.last(), radix).unwrap_or(0)
    }
}

/// The integer a numeral denotes in Rust's integer grammar: an optional `+`
/// (or `-` when `signed`), then one or more digits; no other characters.
/// The range check is separate (see [`parse_int_spec`]).
pub open spec fn numeral_value(s: Seq<char>, radix: nat, signed: bool) -> Option<int> {
    if s.len() == 0 {
        None
    } else if s.len() == 1 && (s[0] == '+' || s[0] == '-') {
        None
    } else if s[0] == '+' {
        if all_digits(s.drop_first(), radix) {
            Some(digits_value(s.drop_first(), radix) as int)
        } else {
            None
        }
    } else if s[0] == '-' && signed {
        if all_digits(s.drop_first(), radix) {
            Some(-(digits_value(s.drop_first(), radix) as int))
        } else {
            None
        }
    } else if all_digits(s, radix) {
        Some(digits_value(s, radix) as int)
    } else {
        None
    }
}

/// `<T>::from_str_radix(s, radix).ok()` for an integer type `T` whose range is
/// `lo..=hi` (signed exactly when `lo < 0`).
pub open spec fn parse_int_spec(s: Seq<char>, radix: nat, lo: int, hi: int) -> Option<int> {
    match numeral_value(s, radix, lo < 0) {
        Some(v) => if lo <= v <= hi {
            Some(v)
        } else {
            None
        },
        None => None,
    }
}

proof fn lemma_digits_value_prefix(s: Seq<char>, k: int, radix: nat)
    requires
        0 <= k <= s.len(),
        radix >= 1,
        all_digits(s, radix),
    ensures
        digits_value(s.subrange(0, k), radix) <= digits_value(s, radix),
    decreases s.len() - k,
{
    if k < s.len() {
        assert(s.drop_last().subrange(0, k) =~= s.subrange(0, k));
        assert(all_digits(s.drop_last(), radix)) by {
            assert forall|i: int| 0 <= i < s.drop_last().len() implies (#[trigger] digit_of(
                s.drop_last()[i],
                radix,
            )) is Some by {
                assert(s.drop_last()[i] == s[i]);
            }
        }
        lemma_digits_value_prefix(s.drop_last(), k, radix);
        let a = digits_value(s.drop_last(), radix);
        assert(a * radix >= a) by (nonlinear_arith)
            requires
                radix >= 1,
        ;
    } else {
        assert(s.subrange(0, k) =~= s);
    }
}

fn digit_value(c: char, radix: u32) -> (r: Option<u32>)
    requires
        radix == 10 || radix == 16,
    ensures
        match r {
            Some(d) => digit_of(c, radix as nat) == Some(d as nat) && d < radix,
            None => digit_of(c, radix as nat) is None,
        },
{
    let u = c as u32;
    if 0x30 <= u && u <= 0x39 {
        Some(u - 0x30)
    } else if radix == 16 && 0x61 <= u && u <= 0x66 {
        Some(u - 0x61 + 10)
    } else if radix == 16 && 0x41 <= u && u <= 0x46 {
        Some(u - 0x41 + 10)
    } else {
        None
    }
}

/// Value of the digits `s[start..]`, or `None` if a character is not a digit
/// or the value exceeds `bound`.
fn digits_upto(s: &[char], start: usize, radix: u32, bound: u128) -> (r: Option<u128>)
    requires
        start <= s@.len(),
        radix == 10 || radix == 16,
        bound <= u64::MAX as u128 + 1,
    ensures
        ({
            let t = s@.subrange(start as int, s@.len() as int);
            match r {
                Some(v) => all_digits(t, radix as nat) && v == digits_value(t, radix as nat) && v
                    <= bound,
                None => !all_digits(t, radix as nat) || digits_value(t, radix as nat) > bound,
            }
        }),
{
    let ghost t = s@.subrange(start as int, s@.len() as int);
    let mut acc: u128 = 0;
    let mut i: usize = start;
    while i < s.len()
        invariant
            start <= i <= s@.len(),
            radix == 10 || radix == 16,
            bound <= u64::MAX as u128 + 1,
            t == s@.subrange(start as int, s@.len() as int),
            all_digits(s@.subrange(start as int, i as int), radix as nat),
            acc == digits_value(s@.subrange(start as int, i as int), radix as nat),
            acc <= bound,
        decreases s@.len() - i,
    {
        let ghost pre = s@.subrange(start as int, i as int);
        let ghost nxt = s@.subrange(start as int, i + 1);
        assert(nxt.drop_last() =~= pre);
        assert(nxt.last() == s@[i as int]);
        match digit_value(s[i], radix) {
            None => {
                proof {
                    assert(t[i - start] == s@[i as int]);
                }
                return None;
            },
            Some(d) => {
                proof {
                    assert(acc * (radix as u128) <= (u64::MAX as u128 + 1) * 16) by (nonlinear_arith)
                        requires
                            acc <= u64::MAX as u128 + 1,
                            radix <= 16,
                    ;
                }
                let next = acc * (radix as u128) + (d as u128);
                proof {
                    assert(all_digits(nxt, radix as nat)) by {
                        assert forall|j: int| 0 <= j < nxt.len() implies (#[trigger] digit_of(
                            nxt[j],
                            radix as nat,
                        )) is Some by {
                            if j < nxt.len() - 1 {
                                assert(nxt[j] == pre[j]);
                            }
                        }
                    }
                }
                if next > bound {
                    proof {
                        if all_digits(t, radix as nat) {
                            assert(t.subrange(0, i + 1 - start) =~= nxt);
                            lemma_digits_value_prefix(t, i + 1 - start, radix as nat);
                        }
                    }
                    return None;
                }
                acc = next;
            },
        }
        i = i + 1;
    }
    assert(s@.subrange(start as int, i as int) =~= t);
    Some(acc)
}

/// Parse `s` as an integer in `lo..=hi` exactly as Rust's `from_str_radix`
/// does for the integer type with that range.
pub fn parse_int(s: &[char], radix: u32, lo: i128, hi: i128) -> (r: Option<i128>)
    requires
        radix == 10 || radix == 16,
        i64::MIN <= lo <= 0 <= hi <= u64::MAX,
    ensures
        match r {
            Some(v) => parse_int_spec(s@, radix as nat, lo as int, hi as int) == Some(v as int),
            None => parse_int_spec(s@, radix as nat, lo as int, hi as int) is None,
        },
{
    let n = s.len();
    if n == 0 {
        return None;
    }
    if n == 1 && (s[0] == '+' || s[0] == '-') {
        return None;
    }
    let ghost rest = s@.drop_first();
    assert(s@.subrange(1, n as int) =~= rest);
    assert(s@.subrange(0, n as int) =~= s@);
    if s[0] == '+' {
        match digits_upto(s, 1, radix, hi as u128) {
            Some(v) => Some(v as i128),
            None => None,
        }
    } else if s[0] == '-' && lo < 0 {
        let bound: u128 = (0 - lo) as u128;
        match digits_upto(s, 1, radix, bound) {
            Some(v) => Some(0 - (v as i128)),
            None => None,
        }
    } else {
        match digits_upto(s, 0, radix, hi as u128) {
            Some(v) => Some(v as i128),
            None => None,
        }
    }
}

/// The decimal character for `d < 16`, lower-case hexadecimal above 9.
pub open spec fn digit_char(d: nat) -> char {
    if d < 10 {
        (0x30 + d) as char
    } else {
        (0x61 + d - 10) as char
    }
}

/// Upper-case variant of [`digit_char`].
pub open spec fn digit_char_upper(d: nat) -> char {
    if d < 10 {
        (0x30 + d) as char
    } else {
        (0x41 + d - 10) as char
    }
}

/// The shortest numeral of `v` in `radix` (`{}` / `{:x}` / `{:X}`).
pub open spec fn render(v: nat, radix: nat, upper: bool) -> Seq<char>
    decreases v,
{
    if radix < 2 {
        seq![]
    } else {
        let d = if upper {
            digit_char_upper(v % radix)
        } else {
            digit_char(v % radix)
        };
        if v < radix {
            seq![d]
        } else {
            proof {
                assert(v / radix < v) by (nonlinear_arith)
                    requires
                        radix >= 2,
                        v >= radix,
                ;
            }
            render(v / radix, radix, upper).push(d)
        }
    }
}

/// `s` left-padded with `'0'` to at least `width` characters.
pub open spec fn zero_pad(s: Seq<char>, width: nat) -> Seq<char> {
    if s.len() >= width {
        s
    } else {
        Seq::new((width - s.len()) as nat, |i: int| '0') + s
    }
}

/// Decimal numeral of a signed value (`{}` on an integer).
pub open spec fn render_int(v: int) -> Seq<char> {
    if v < 0 {
        seq!['-'] + render((-v) as nat, 10, false)
    } else {
        render(v as nat, 10, false)
    }
}

fn digit_to_char(d: u64, upper: bool) -> (c: char)
    requires
        d < 16,
    ensures
        c == (if upper {
            digit_char_upper(d as nat)
        } else {
            digit_char(d as nat)
        }),
{
    let b: u8 = if d < 10 {
        (0x30 + d) as u8
    } else if upper {
        (0x41 + d - 10) as u8
    } else {
        (0x61 + d - 10) as u8
    };
    crate::text::char_from_ascii(b)
}

/// `v` rendered in `radix` (10 or 16).
pub fn render_u64(v: u64, radix: u64, upper: bool) -> (r: Vec<char>)
    requires
        radix == 10 || radix == 16,
    ensures
        r@ == render(v as nat, radix as nat, upper),
    decreases v,
{
    let d = digit_to_char(v % radix, upper);
    if v < radix {
        let mut out = Vec::new();
        out.push(d);
        proof {
            assert(out@ =~= seq![d]);
        }
        out
    } else {
        assert(v / radix < v) by (nonlinear_arith)
            requires
                radix >= 2,
                v >= radix,
        ;
        let mut out = render_u64(v / radix, radix, upper);
        out.push(d);
        out
    }
}

/// `{:0width$x}`-style padding.
pub fn pad_zeros(s: Vec<char>, width: usize) -> (r: Vec<char>)
    ensures
        r@ == zero_pad(s@, width as nat),
{
    if s.len() >= width {
        return s;
    }
    let k = width - s.len();
    let mut out: Vec<char> = Vec::new();
    let mut i: usize = 0;
    while i < k
        invariant
            i <= k,
            out@ =~= Seq::new(i as nat, |j: int| '0'),
        decreases k - i,
    {
        out.push('0');
        i = i + 1;
    }
    let mut j: usize = 0;
    while j < s.len()
        invariant
            j <= s@.len(),
            out@ =~= Seq::new(k as nat, |j: int| '0') + s@.subrange(0, j as int),
        decreases s@.len() - j,
    {
        out.push(s[j]);
        j = j + 1;
        assert(s@.subrange(0, j as int) =~= s@.subrange(0, j - 1).push(s@[j - 1]));
    }
    assert(s@.subrange(0, s@.len() as int) =~= s@);
    out
}

/// Decimal rendering of a signed 64-bit value.
pub fn render_i64(v: i64) -> (r: Vec<char>)
    ensures
        r@ == render_int(v as int),
{
    if v < 0 {
        let mag: u64 = if v == i64::MIN {
            9223372036854775808u64
        } else {
            (0 - v) as u64
        };
        let digits = render_u64(mag, 10, false);
        let mut out = Vec::new();
        out.push('-');
        let mut j: usize = 0;
        while j < digits.len()
            invariant
                j <= digits@.len(),
                out@ =~= seq!['-'] + digits@.subrange(0, j as int),
            decreases digits@.len() - j,
        {
            out.push(digits[j]);
            j = j + 1;
            assert(digits@.subrange(0, j as int) =~= digits@.subrange(0, j - 1).push(
                digits@[j - 1],
            ));
        }
        assert(digits@.subrange(0, digits@.len() as int) =~= digits@);
        out
    } else {
        render_u64(v as u64, 10, false)
    }
}

} // verus!
