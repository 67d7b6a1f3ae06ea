//! The decision half of probing whether an address holds a game's
//! authoritative value or a live copy of it.
//!
//! The authoritative value is the source the game reads and writes; display
//! and logic copies are rewritten from it every frame. A probe writes a
//! distinct sentinel, lets the target run, and reads back: a copy is
//! overwritten, the source is left alone. Reading, writing and waiting are
//! the caller's part.

use vstd::prelude::*;

verus! {

/// The result of a probe.
#[derive(Copy, Clone, Debug, PartialEq, Eq, Structural)]
pub enum ProbeOutcome {
    /// The sentinel was still there after the wait: nothing in the target
    /// overwrote it. Likely the authoritative value (or a stale copy).
    Held,
    /// The target overwrote the sentinel during the wait: a live copy
    /// written from somewhere else, so probably not the source.
    Reverted,
}

/// The sentinel written over `original`: its first byte with the lowest bit
/// flipped, the rest unchanged (the smallest perturbation, to reduce the
/// chance of crashing the target).
pub open spec fn sentinel_of(original: Seq<u8>) -> Seq<u8> {
    original.update(0, original[0] ^ 1u8)
}

/// The bytes to write as the probe's sentinel.
pub fn probe_sentinel(original: &[u8]) -> (r: Vec<u8>)
    requires
        original@.len() > 0,
    ensures
        r@ == sentinel_of(original@),
{
    let mut s = vstd::slice::slice_to_vec(original);
    let b = s[0] ^ 1u8;
    s.set(0, b);
    s
}

/// `Held` exactly when the bytes read back after the wait are the sentinel.
pub fn probe_verdict(sentinel: &[u8], readback: &[u8]) -> (r: ProbeOutcome)
    ensures
        (r == ProbeOutcome::Held) <==> (readback@ == sentinel@),
{
    if sentinel.len() != readback.len() {
        return ProbeOutcome::Reverted;
    }
    let mut k: usize = 0;
    while k < sentinel.len()
        invariant
            k <= sentinel@.len(),
            sentinel@.len() == readback@.len(),
            forall|j: int| 0 <= j < k ==> sentinel@[j] == readback@[j],
        decreases sentinel@.len() - k,
    {
        if sentinel[k] != readback[k] {
            assert(sentinel@[k as int] != readback@[k as int]);
            return ProbeOutcome::Reverted;
        }
        k = k + 1;
    }
    assert(readback@ =~= sentinel@);
    ProbeOutcome::Held
}

/// What to write back once the probe is decided: the original bytes where
/// the sentinel held (nothing in the target would restore them), nothing
/// where the target overwrote it itself.
pub fn probe_restore(outcome: ProbeOutcome, original: &[u8]) -> (r: Option<Vec<u8>>)
    ensures
        match outcome {
            ProbeOutcome::Held => r matches Some(b) && b@ == original@,
            ProbeOutcome::Reverted => r is None,
        },
{
    match outcome {
        ProbeOutcome::Held => Some(vstd::slice::slice_to_vec(original)),
        ProbeOutcome::Reverted => None,
    }
}

} // verus!
