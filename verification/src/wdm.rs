//! Wavelength-division multiplexing sim: three lasers key their own bit
//! streams onto three wavelengths, a combiner puts them into one fibre, and
//! a splitter filters them apart again at the far end.
use vstd::prelude::*;

verus! {

/// Loop length: the last light arrives 4862.5 ms in, then a 900 ms pause.
pub const DURATION: u64 = 5762;

/// Positions in hundredths of a pixel: the lasers, the combiner, the
/// splitter and the receivers; light moves 16 of them per ms, and the
/// streams' tail leaves the lasers 1300 ms after their head.
pub const S_X: i64 = 9500;
pub const C_X: i64 = 25000;
pub const L_X: i64 = 51000;
pub const U_X: i64 = 66500;

/// The input wavefront and the output (tail) wavefront at `l` ms.
pub open spec fn v_front(l: int) -> int {
    S_X + 16 * l
}

pub open spec fn h_front(l: int) -> int {
    S_X + 16 * (l - 1300)
}

/// All light has arrived: from 4862.5 ms on.
pub open spec fn done(tt: nat) -> bool {
    2 * tt >= 9725
}

pub open spec fn in_fiber(tt: nat) -> bool {
    v_front(tt as int) > C_X && h_front(tt as int) < L_X && !done(tt)
}

pub open spec fn out_fiber(tt: nat) -> bool {
    v_front(tt as int) >= L_X && h_front(tt as int) < U_X && !done(tt)
}

pub open spec fn note_spec(tt: nat) -> Seq<char> {
    if done(tt) {
        "All 3 streams delivered intact over the one strand."@
    } else if out_fiber(tt) && in_fiber(tt) {
        "The splitter is a wavelength filter: out of the combined light, each output port passes only its own carrier, and each comes out exactly as its laser keyed it."@
    } else if in_fiber(tt) {
        "All 3 carriers overlap in the same core, the glass carries their sum (bold line). The waves add without mixing, each passes through unchanged, so every carrier is still in there."@
    } else if out_fiber(tt) {
        "The last of the combined light has been filtered apart by wavelength and is arriving at the receivers."@
    } else {
        "Each laser keys its own bit stream onto its own wavelength of light."@
    }
}

/// What the WDM sim shows at one moment.
pub struct WdmState {
    /// Time into the loop (ms), for the waves.
    pub tt: u64,
    pub done: bool,
    /// Light in the shared fibre; light past the splitter.
    pub in_fiber: bool,
    pub out_fiber: bool,
    pub note: &'static str,
}

/// The WDM sim as a looping animation.
pub struct Wdm;

impl Wdm {
    pub fn duration(&self) -> (d: u64)
        ensures
            d == DURATION,
    {
        DURATION
    }

    /// State at `t` (looped).
    pub fn state_at(&self, t: u64) -> (st: WdmState)
        ensures
            ({
                let tt = (t as nat) % (DURATION as nat);
                &&& st.tt == tt
                &&& st.done == done(tt)
                &&& st.in_fiber == in_fiber(tt)
                &&& st.out_fiber == out_fiber(tt)
                &&& st.note@ == note_spec(tt)
            }),
    {
        let tt = t % DURATION;
        let done = 2 * tt >= 9725;
        let v: i64 = S_X + 16 * tt as i64;
        let h: i64 = S_X + 16 * (tt as i64 - 1300);
        let in_fiber = v > C_X && h < L_X && !done;
        let out_fiber = v >= L_X && h < U_X && !done;
        let note = if done {
            "All 3 streams delivered intact over the one strand."
        } else if out_fiber && in_fiber {
            "The splitter is a wavelength filter: out of the combined light, each output port passes only its own carrier, and each comes out exactly as its laser keyed it."
        } else if in_fiber {
            "All 3 carriers overlap in the same core, the glass carries their sum (bold line). The waves add without mixing, each passes through unchanged, so every carrier is still in there."
        } else if out_fiber {
            "The last of the combined light has been filtered apart by wavelength and is arriving at the receivers."
        } else {
            "Each laser keys its own bit stream onto its own wavelength of light."
        };
        WdmState { tt, done, in_fiber, out_fiber, note }
    }
}

} // verus!
