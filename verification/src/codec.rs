//! Native-endian byte encoding of unsigned integers.
//!
//! The byte order is the executing machine's, abstracted by vstd's
//! `endianness()`; the little-endian digit model `le_value` / `le_bytes`
//! describes both orders (big-endian is its reverse).

use vstd::prelude::*;

verus! {

/// Little-endian value of a byte string.
pub open spec fn le_value(s: Seq<u8>) -> nat
    decreases s.len(),
{
    if s.len() == 0 {
        0
    } else {
        s[0] as nat + 256 * le_value(s.drop_first())
    }
}

/// The `n` little-endian bytes of `x` (its low `8 * n` bits).
pub open spec fn le_bytes(x: nat, n: nat) -> Seq<u8>
    decreases n,
{
    if n == 0 {
        seq![]
    } else {
        seq![(x % 256) as u8] + le_bytes(x / 256, (n - 1) as nat)
    }
}

pub open spec fn pow256(n: nat) -> nat
    decreases n,
{
    if n == 0 {
        1
    } else {
        256 * pow256((n - 1) as nat)
    }
}

/// Whether the executing machine stores integers least-significant byte first.
pub open spec fn is_little() -> bool {
    vstd::endian::endianness() is Little
}

/// The unsigned integer that the bytes `s` hold in native byte order.
pub open spec fn ne_value(s: Seq<u8>) -> nat {
    if is_little() {
        le_value(s)
    } else {
        le_value(s.reverse())
    }
}

/// The `n` native-order bytes of `x`.
pub open spec fn ne_bytes(x: nat, n: nat) -> Seq<u8> {
    if is_little() {
        le_bytes(x, n)
    } else {
        le_bytes(x, n).reverse()
    }
}

pub proof fn lemma_pow256_values()
    ensures
        pow256(1) == 0x100,
        pow256(2) == 0x1_0000,
        pow256(4) == 0x1_0000_0000,
        pow256(8) == 0x1_0000_0000_0000_0000,
{
    reveal_with_fuel(pow256, 9);
}

pub proof fn lemma_le_roundtrip(x: nat, n: nat)
    requires
        x < pow256(n),
    ensures
        le_bytes(x, n).len() == n,
        le_value(le_bytes(x, n)) == x,
    decreases n,
{
    if n > 0 {
        let p = pow256((n - 1) as nat);
        assert(x / 256 < p) by {
            assert(x < 256 * p);
        }
        lemma_le_roundtrip(x / 256, (n - 1) as nat);
        let s = le_bytes(x, n);
        assert(s.drop_first() =~= le_bytes(x / 256, (n - 1) as nat));
    }
}

pub proof fn lemma_le_bytes_of_value(s: Seq<u8>)
    ensures
        le_value(s) < pow256(s.len()),
        le_bytes(le_value(s), s.len()) == s,
    decreases s.len(),
{
    if s.len() > 0 {
        let t = s.drop_first();
        lemma_le_bytes_of_value(t);
        let v = le_value(s);
        let w = le_value(t);
        assert(v % 256 == s[0] as nat && v / 256 == w) by {
            vstd::arithmetic::div_mod::lemma_fundamental_div_mod_converse(
                v as int,
                256,
                w as int,
                s[0] as int,
            );
        }
        assert(le_bytes(v, s.len()) =~= s);
    } else {
        assert(le_bytes(le_value(s), 0) =~= s);
    }
}

pub proof fn lemma_ne_roundtrip(x: nat, n: nat)
    requires
        x < pow256(n),
    ensures
        ne_bytes(x, n).len() == n,
        ne_value(ne_bytes(x, n)) == x,
{
    lemma_le_roundtrip(x, n);
    if !is_little() {
        assert(le_bytes(x, n).reverse().reverse() =~= le_bytes(x, n));
    }
}

pub proof fn lemma_ne_bytes_of_value(s: Seq<u8>)
    ensures
        ne_value(s) < pow256(s.len()),
        ne_bytes(ne_value(s), s.len()) == s,
{
    if is_little() {
        lemma_le_bytes_of_value(s);
    } else {
        lemma_le_bytes_of_value(s.reverse());
        assert(s.reverse().reverse() =~= s);
    }
}

/// A single byte reads the same in either order.
pub proof fn lemma_ne_single(s: Seq<u8>)
    requires
        s.len() == 1,
    ensures
        ne_value(s) == s[0] as nat,
{
    reveal_with_fuel(le_value, 2);
    assert(s.reverse() =~= s);
    assert(s.drop_first() =~= Seq::<u8>::empty());
}

/// `u16::from_ne_bytes`: the value the two bytes hold in native order.
#[verifier::external_body]
pub(crate) fn u16_from_ne(b: [u8; 2]) -> (r: u16)
    ensures
        r as nat == ne_value(b@),
{
    u16::from_ne_bytes(b)
}

/// `u32::from_ne_bytes`: the value the four bytes hold in native order.
#[verifier::external_body]
pub(crate) fn u32_from_ne(b: [u8; 4]) -> (r: u32)
    ensures
        r as nat == ne_value(b@),
{
    u32::from_ne_bytes(b)
}

/// `u64::from_ne_bytes`: the value the eight bytes hold in native order.
#[verifier::external_body]
pub(crate) fn u64_from_ne(b: [u8; 8]) -> (r: u64)
    ensures
        r as nat == ne_value(b@),
{
    u64::from_ne_bytes(b)
}

/// `u16::to_ne_bytes`: the two native-order bytes of `v`.
#[verifier::external_body]
pub(crate) fn u16_to_ne(v: u16) -> (r: [u8; 2])
    ensures
        r@ == ne_bytes(v as nat, 2),
{
    v.to_ne_bytes()
}

/// `u32::to_ne_bytes`: the four native-order bytes of `v`.
#[verifier::external_body]
pub(crate) fn u32_to_ne(v: u32) -> (r: [u8; 4])
    ensures
        r@ == ne_bytes(v as nat, 4),
{
    v.to_ne_bytes()
}

/// `u64::to_ne_bytes`: the eight native-order bytes of `v`.
#[verifier::external_body]
pub(crate) fn u64_to_ne(v: u64) -> (r: [u8; 8])
    ensures
        r@ == ne_bytes(v as nat, 8),
{
    v.to_ne_bytes()
}

/// The native-order value of `bytes[..n]` for `n` in {1, 2, 4, 8}.
pub fn read_ne(bytes: &[u8], n: usize) -> (r: u64)
    requires
        n == 1 || n == 2 || n == 4 || n == 8,
        bytes@.len() >= n,
    ensures
        r as nat == ne_value(bytes@.take(n as int)),
{
    if n == 1 {
        proof {
            lemma_ne_single(bytes@.take(1));
        }
        bytes[0] as u64
    } else if n == 2 {
        let a = [bytes[0], bytes[1]];
        assert(a@ =~= bytes@.take(2));
        u16_from_ne(a) as u64
    } else if n == 4 {
        let a = [bytes[0], bytes[1], bytes[2], bytes[3]];
        assert(a@ =~= bytes@.take(4));
        u32_from_ne(a) as u64
    } else {
        let a = [bytes[0], bytes[1], bytes[2], bytes[3], bytes[4], bytes[5], bytes[6], bytes[7]];
        assert(a@ =~= bytes@.take(8));
        u64_from_ne(a)
    }
}

/// The `n` native-order bytes of `x` for `n` in {1, 2, 4, 8}.
pub fn write_ne(x: u64, n: usize) -> (r: Vec<u8>)
    requires
        n == 1 || n == 2 || n == 4 || n == 8,
        (x as nat) < pow256(n as nat),
    ensures
        r@ == ne_bytes(x as nat, n as nat),
{
    proof {
        lemma_pow256_values();
    }
    let mut out: Vec<u8> = Vec::new();
    if n == 1 {
        out.push(x as u8);
        proof {
            reveal_with_fuel(le_bytes, 2);
            assert(le_bytes(x as nat, 1) =~= seq![x as u8]);
            assert(seq![x as u8].reverse() =~= seq![x as u8]);
        }
    } else if n == 2 {
        let a = u16_to_ne(x as u16);
        out.push(a[0]);
        out.push(a[1]);
        assert(out@ =~= a@);
    } else if n == 4 {
        let a = u32_to_ne(x as u32);
        out.push(a[0]);
        out.push(a[1]);
        out.push(a[2]);
        out.push(a[3]);
        assert(out@ =~= a@);
    } else {
        let a = u64_to_ne(x);
        let mut i: usize = 0;
        while i < 8
            invariant
                i <= 8,
                out@ =~= a@.take(i as int),
            decreases 8 - i,
        {
            out.push(a[i]);
            i = i + 1;
        }
        assert(out@ =~= a@);
    }
    out
}

} // verus!
