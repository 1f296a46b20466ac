//! Shared timing rules of the simulations: how long a caption stays on
//! screen, and locating the current stage in a list of boundaries.
use vstd::prelude::*;
use crate::text::{byte_len, utf8_len};

verus! {

/// Display time of a caption: its byte length times a per-byte rate, clamped
/// into `[lo, hi]` milliseconds.
pub open spec fn cap_ms(len: nat, per: nat, lo: nat, hi: nat) -> nat {
    let n = len * per;
    if n < lo {
        lo
    } else if n > hi {
        hi
    } else {
        n
    }
}

/// Display time of a caption text (see `cap_ms`).
pub open spec fn caption_time(s: Seq<char>, per: nat, lo: nat, hi: nat) -> nat {
    cap_ms(utf8_len(s), per, lo, hi)
}

pub open spec fn max_nat(a: nat, b: nat) -> nat {
    if a < b { b } else { a }
}

/// Clamp of `len * per` into `[lo, hi]`, computed without overflow.
pub fn cap_len(len: usize, per: u64, lo: u64, hi: u64) -> (r: u64)
    requires
        0 < per,
        lo <= hi,
    ensures
        r == cap_ms(len as nat, per as nat, lo as nat, hi as nat),
        lo <= r <= hi,
{
    let l = len as u64;
    if l > hi / per {
        assert((l as nat) * (per as nat) > hi as nat) by (nonlinear_arith)
            requires l > hi / per, per > 0;
        hi
    } else {
        assert((l as nat) * (per as nat) <= hi as nat) by (nonlinear_arith)
            requires l <= hi / per, per > 0;
        let n = l * per;
        if n < lo { lo } else { n }
    }
}

/// Display time of a caption text (see `caption_time`).
pub fn caption_ms(s: &str, per: u64, lo: u64, hi: u64) -> (r: u64)
    requires
        0 < per,
        lo <= hi,
    ensures
        r == caption_time(s@, per as nat, lo as nat, hi as nat),
        lo <= r <= hi,
{
    cap_len(byte_len(s), per, lo, hi)
}

/// The last index whose start is at or before `t`, given ascending starts
/// beginning at zero.
pub open spec fn stage_of(starts: Seq<u64>, t: nat) -> int
    decreases starts.len(),
{
    if starts.len() == 0 {
        0
    } else if starts.last() <= t {
        starts.len() - 1
    } else {
        stage_of(starts.drop_last(), t)
    }
}

/// Index of the stage in progress at `t`: the last start at or before `t`
/// (the first stage when none is).
pub fn stage_index(starts: &Vec<u64>, t: u64) -> (i: usize)
    requires
        starts@.len() > 0,
    ensures
        i < starts@.len(),
        i as int == stage_of(starts@, t as nat),
        starts@[i as int] <= t || i == 0,
        forall|j: int| i < j < starts@.len() ==> starts@[j] > t,
{
    let mut i = starts.len();
    assert(starts@.take(i as int) =~= starts@);
    while i > 0
        invariant
            i <= starts@.len(),
            forall|j: int| i <= j < starts@.len() ==> starts@[j] > t,
            stage_of(starts@, t as nat) == stage_of(starts@.take(i as int), t as nat),
        decreases i,
    {
        let ghost pre = starts@.take(i as int);
        if starts[i - 1] <= t {
            assert(pre.last() == starts@[i - 1]);
            return i - 1;
        }
        assert(pre.drop_last() =~= starts@.take(i - 1));
        i = i - 1;
    }
    proof {
        assert(starts@.take(0).len() == 0);
    }
    0
}

/// A looping animation reads its clock modulo its length, so one full loop
/// later it shows the same state.
pub proof fn lemma_loops(t: nat, d: nat)
    requires
        d > 0,
    ensures
        (t + d) % d == t % d,
{
    assert((t + d) % d == t % d) by (nonlinear_arith)
        requires d > 0;
}

} // verus!
