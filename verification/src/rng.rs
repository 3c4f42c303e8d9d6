//! The deterministic 32-bit pseudo-random generator.

use vstd::prelude::*;

verus! {

/// One step of the generator: double the state modulo 2^32, flip the lowest
/// bit, and, if the sign bit is set, fold in the fixed mixing constant.
/// The drawn value is the new state itself.
pub open spec fn next_state(s: u32) -> u32 {
    let doubled = if s + s > u32::MAX {
        (s + s - 0x1_0000_0000) as u32
    } else {
        (s + s) as u32
    };
    let flipped = doubled ^ 1u32;
    if flipped >= 0x8000_0000 {
        flipped ^ 0x88888eef
    } else {
        flipped
    }
}

/// Advances the state by one step and returns the drawn value, which equals
/// the new state. The result is a pure function of the old state.
#[allow(non_snake_case)]
pub fn GenRand(gen: &mut u32) -> (r: u32)
    ensures
        *final(gen) == next_state(*old(gen)),
        r == next_state(*old(gen)),
{
    let doubled: u32 = (*gen).wrapping_add(*gen);
    let flipped: u32 = doubled ^ 1;
    let next: u32 = if flipped >= 0x8000_0000 {
        flipped ^ 0x88888eef
    } else {
        flipped
    };
    *gen = next;
    next
}

/// Holds when `v` is a run of the generator started from `s`: each entry is
/// the step applied to its predecessor, the first to `s` itself.
pub open spec fn is_rng_run(s: u32, v: Seq<u32>) -> bool {
    forall|i: int|
        0 <= i < v.len() ==> #[trigger] v[i] == next_state(
            if i == 0 {
                s
            } else {
                v[i - 1]
            },
        )
}

/// The generator is deterministic: two runs of equal length from the same
/// starting state are the same sequence, entry for entry.
pub proof fn lemma_rng_deterministic(s: u32, a: Seq<u32>, b: Seq<u32>)
    requires
        is_rng_run(s, a),
        is_rng_run(s, b),
        a.len() == b.len(),
    ensures
        a == b,
{
    assert forall|i: int| 0 <= i < a.len() implies a[i] == b[i] by {
        lemma_rng_run_entry(s, a, b, i);
    }
    assert(a =~= b);
}

proof fn lemma_rng_run_entry(s: u32, a: Seq<u32>, b: Seq<u32>, i: int)
    requires
        is_rng_run(s, a),
        is_rng_run(s, b),
        a.len() == b.len(),
        0 <= i < a.len(),
    ensures
        a[i] == b[i],
    decreases i,
{
    if i > 0 {
        lemma_rng_run_entry(s, a, b, i - 1);
    }
}

} // verus!
