//! Exact integer descriptions of how integers land on the `f64` grid.
//!
//! Converting an integer to `f64` keeps 53 significant bits, rounding to the
//! nearest representable value with ties to even; this module computes that
//! value with integer arithmetic only.

use vstd::prelude::*;

verus! {

pub open spec fn p2(e: nat) -> nat
    decreases e,
{
    if e == 0 {
        1
    } else {
        2 * p2((e - 1) as nat)
    }
}

/// 2^53, the first integer past which `f64` loses integer precision.
pub open spec fn two53() -> nat {
    0x20_0000_0000_0000
}

/// Number of low bits of `m` that do not fit into 53 significant bits.
pub open spec fn excess(m: nat) -> nat
    decreases m,
{
    if m < two53() {
        0
    } else {
        1 + excess(m / 2)
    }
}

/// The `f64` value nearest to the non-negative integer `m` (ties to even):
/// the multiple of 2^e nearest to `m`, where `e` is the number of bits that
/// do not fit the 53-bit significand.
pub open spec fn f64_grid(m: nat) -> nat {
    let e = excess(m);
    let p = p2(e);
    let q = m / p;
    let r = m % p;
    if e == 0 {
        m
    } else if r * 2 > p || (r * 2 == p && q % 2 == 1) {
        (q + 1) * p
    } else {
        q * p
    }
}

/// The `f64` value of the integer `v` (`v as f64`), as an integer.
pub open spec fn int_as_f64(v: int) -> int {
    if v < 0 {
        -(f64_grid((-v) as nat) as int)
    } else {
        f64_grid(v as nat) as int
    }
}

proof fn lemma_p2_mono(a: nat, b: nat)
    requires
        a <= b,
    ensures
        p2(a) <= p2(b),
    decreases b,
{
    if a < b {
        lemma_p2_mono(a, (b - 1) as nat);
        lemma_p2_pos((b - 1) as nat);
    }
}

proof fn lemma_p2_pos(e: nat)
    ensures
        p2(e) >= 1,
    decreases e,
{
    if e > 0 {
        lemma_p2_pos((e - 1) as nat);
    }
}

/// `f64_grid` of a magnitude below 2^64.
pub fn grid_u64(m: u64) -> (r: u128)
    ensures
        r == f64_grid(m as nat),
        r <= 0x1_0000_0000_0000_0000,
{
    let mut q: u64 = m;
    let mut p: u128 = 1;
    let ghost mut e: nat = 0;
    assert(m as nat / 1 == m);
    while q >= 0x20_0000_0000_0000
        invariant
            p == p2(e),
            1 <= p <= 0x800,
            e <= 11,
            q as nat == (m as nat) / (p as nat),
            excess(m as nat) == e + excess(q as nat),
        decreases q,
    {
        proof {
            vstd::arithmetic::div_mod::lemma_div_denominator(m as int, p as int, 2);
            assert(p * 2 == p2(e + 1));
            assert((q as nat) * (p as nat) <= m) by {
                vstd::arithmetic::div_mod::lemma_fundamental_div_mod(m as int, p as int);
                vstd::arithmetic::div_mod::lemma_mod_pos_bound(m as int, p as int);
            }
            assert(0x20_0000_0000_0000 * (p as nat) <= (q as nat) * (p as nat)) by (nonlinear_arith)
                requires
                    q >= 0x20_0000_0000_0000,
            ;
            assert(0x20_0000_0000_0000 * (p as nat) <= m);
            assert(p < 0x800);
            reveal_with_fuel(p2, 12);
            if e >= 11 {
                lemma_p2_mono(11, e);
                assert(false);
            }
            lemma_p2_mono(e + 1, 11);
        }
        q = q / 2;
        p = p * 2;
        proof {
            e = e + 1;
        }
    }
    proof {
        assert(excess(q as nat) == 0);
    }
    if p == 1 {
        return m as u128;
    }
    let r: u128 = (m as u128) % p;
    proof {
        vstd::arithmetic::div_mod::lemma_mod_pos_bound(m as int, p as int);
        assert((q as u128) * p <= (q as u128 + 1) * p) by (nonlinear_arith)
            requires
                p >= 1,
        ;
        assert((q as u128 + 1) * p <= 0x20_0000_0000_0000 * 0x800) by (nonlinear_arith)
            requires
                q < 0x20_0000_0000_0000,
                p <= 0x800,
        ;
    }
    if r * 2 > p || (r * 2 == p && q % 2 == 1) {
        (q as u128 + 1) * p
    } else {
        (q as u128) * p
    }
}

/// A positive integer stays positive on the `f64` grid.
pub proof fn lemma_grid_floor(m: nat)
    requires
        m > 0,
    ensures
        f64_grid(m) > 0,
{
    let e = excess(m);
    let p = p2(e);
    lemma_p2_pos(e);
    if e > 0 {
        lemma_excess_quotient(m);
        let q = m / p;
        assert(q * p > 0 && (q + 1) * p > 0) by (nonlinear_arith)
            requires
                q >= 1,
                p >= 1,
        ;
    }
}

proof fn lemma_excess_quotient(m: nat)
    requires
        excess(m) > 0,
    ensures
        m / p2(excess(m)) >= 1,
    decreases m,
{
    let e = excess(m);
    assert(m >= two53());
    if excess(m / 2) > 0 {
        lemma_excess_quotient(m / 2);
        lemma_p2_pos((e - 1) as nat);
        vstd::arithmetic::div_mod::lemma_div_denominator(m as int, 2, p2((e - 1) as nat) as int);
    } else {
        assert(e == 1);
        assert(p2(1) == 2) by {
            reveal_with_fuel(p2, 2);
        }
    }
}

/// Integers below 2^53 are their own `f64` value.
pub proof fn lemma_small_exact(m: int)
    requires
        0 <= m < 0x20_0000_0000_0000,
    ensures
        f64_grid(m as nat) == m,
{
}

} // verus!
