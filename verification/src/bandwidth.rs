//! Bandwidth-and-latency sim: eight bits keyed onto a long link. Sending
//! takes 24 (slowed) ms and travel 45 ms, so for a while the sender is still
//! transmitting while the first bits are arriving.
use vstd::prelude::*;

verus! {

pub const DURATION: u64 = 3400;
/// The animated span of the loop (ms); the rest holds the final state.
pub const HOLD_MS: u64 = 2600;
/// Simulated transmission and propagation times (ms).
pub const SIM_TX_MS: u64 = 24;
pub const SIM_PROP_MS: u64 = 45;

/// Simulated time at loop time `tt`, as a fraction `(num, den)` of a ms.
/// The playhead sweeps the 460 px wire plus 60 px beyond it over `HOLD_MS`;
/// along the wire 460 px stand for the 45 ms of travel, beyond it each
/// 2.5 px is one ms.
pub open spec fn sim_time(tt: nat) -> (int, int) {
    let m = if tt < HOLD_MS { tt } else { HOLD_MS as nat };
    if m <= 2300 { (9 * m as int, 460) } else { (45 * 25 + 2 * (m - 2300), 25) }
}

/// The phase caption at simulated time `k = num / den`.
pub open spec fn note_spec(num: int, den: int) -> Seq<char> {
    let transmitting = num > 0 && num < SIM_TX_MS * den;
    let arriving = num > SIM_PROP_MS * den && num < (SIM_PROP_MS + SIM_TX_MS) * den;
    let done = num >= (SIM_PROP_MS + SIM_TX_MS) * den;
    if transmitting && !arriving {
        "Transmitter is keying the bit sequence onto the link."@
    } else if arriving && transmitting {
        "Signal is arriving at receiver while sender is still transmitting."@
    } else if arriving {
        "Transmission finished at sender; last bits are arriving at receiver."@
    } else if done {
        "Message fully received and decoded."@
    } else {
        "Idle."@
    }
}

/// What the bandwidth sim shows at one moment.
pub struct BandwidthState {
    /// Simulated time `num / den` ms, which places the bits on the wire.
    pub num: u64,
    pub den: u64,
    pub note: &'static str,
}

/// The bandwidth sim as a looping animation.
pub struct Bandwidth;

impl Bandwidth {
    pub fn duration(&self) -> (d: u64)
        ensures
            d == DURATION,
    {
        DURATION
    }

    /// State at `t` (looped).
    pub fn state_at(&self, t: u64) -> (st: BandwidthState)
        ensures
            ({
                let (num, den) = sim_time((t as nat) % (DURATION as nat));
                &&& st.num == num
                &&& st.den == den
                &&& st.note@ == note_spec(num, den)
            }),
    {
        let tt = t % DURATION;
        let m = if tt < HOLD_MS { tt } else { HOLD_MS };
        let (num, den): (u64, u64) = if m <= 2300 { (9 * m, 460) } else { (45 * 25 + 2 * (m - 2300), 25) };
        let transmitting = num > 0 && num < SIM_TX_MS * den;
        let arriving = num > SIM_PROP_MS * den && num < (SIM_PROP_MS + SIM_TX_MS) * den;
        let done = num >= (SIM_PROP_MS + SIM_TX_MS) * den;
        let note = if transmitting && !arriving {
            "Transmitter is keying the bit sequence onto the link."
        } else if arriving && transmitting {
            "Signal is arriving at receiver while sender is still transmitting."
        } else if arriving {
            "Transmission finished at sender; last bits are arriving at receiver."
        } else if done {
            "Message fully received and decoded."
        } else {
            "Idle."
        };
        BandwidthState { num, den, note }
    }
}

} // verus!
