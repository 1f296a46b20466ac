//! Dial-up sim: the six phases of a modem handshake, from dial tone to a
//! silent, connected line, over a 28.6 s recording.
use vstd::prelude::*;

verus! {

/// The recording's length (ms, rounded down) and the loop with a 1 s pause.
pub const TOTAL_MS: u64 = 28595;
pub const DURATION: u64 = 29595;

/// Start of phase `i` (ms).
pub open spec fn phase_start(i: int) -> nat {
    if i <= 0 { 0 } else if i == 1 { 4900 } else if i == 2 { 6800 } else if i == 3 { 13000 } else if i == 4 { 15000 } else { 26700 }
}

pub open spec fn phase_note(i: int) -> Seq<char> {
    if i == 0 {
        "The modem picks up the line, confirms it has a dial tone, and dials the ISP's number as DTMF (Dual-Tone Multi-Frequency) touch-tones, the same tones a telephone keypad makes."@
    } else if i == 1 {
        "The far end's modem picks up and holds a steady tone, telling your modem a modem, not a person, answered."@
    } else if i == 2 {
        "The two modems exchange low-speed FSK bursts, digital, just slow enough to survive an unoptimized line, listing which modulation standards, compression, and error-correction each one supports."@
    } else if i == 3 {
        "Having agreed on a shared standard, both sides probe this specific phone line, a noisy, band-limited, decades-old copper pair, to measure how many bits per second it can actually carry today."@
    } else if i == 4 {
        "A burst of full-spectrum noise trains each modem's equalizer and echo canceller to the exact distortions of this one line, the last calibration before real data can flow."@
    } else {
        "The speaker goes silent. Every hertz of bandwidth the line can carry is now spent moving your data, not letting you listen to it."@
    }
}

/// The phase at `ms`: the last one started.
pub open spec fn phase_at_spec(ms: nat) -> int {
    if ms >= 26700 { 5 } else if ms >= 15000 { 4 } else if ms >= 13000 { 3 } else if ms >= 6800 { 2 } else if ms >= 4900 { 1 } else { 0 }
}

/// Among the first `n` phases, the last one started by `ms`.
pub open spec fn last_started(ms: nat, n: int) -> int
    decreases n,
{
    if n <= 1 { 0 } else if ms >= phase_start(n - 1) { n - 1 } else { last_started(ms, n - 1) }
}

/// The phase at `ms`.
pub fn phase_at(ms: u64) -> (p: usize)
    ensures
        p == phase_at_spec(ms as nat),
        p < 6,
{
    let starts: [u64; 6] = [0, 4900, 6800, 13000, 15000, 26700];
    let mut p: usize = 0;
    let mut i: usize = 1;
    while i < 6
        invariant
            1 <= i <= 6,
            forall|k: int| 0 <= k < 6 ==> #[trigger] starts@[k] == phase_start(k),
            p == last_started(ms as nat, i as int),
            p < i,
        decreases 6 - i,
    {
        if ms >= starts[i] {
            p = i;
        }
        i = i + 1;
    }
    proof {
        reveal_with_fuel(last_started, 7);
    }
    p
}

fn phase_note_exec(i: usize) -> (s: &'static str)
    requires
        i < 6,
    ensures
        s@ == phase_note(i as int),
{
    if i == 0 {
        "The modem picks up the line, confirms it has a dial tone, and dials the ISP's number as DTMF (Dual-Tone Multi-Frequency) touch-tones, the same tones a telephone keypad makes."
    } else if i == 1 {
        "The far end's modem picks up and holds a steady tone, telling your modem a modem, not a person, answered."
    } else if i == 2 {
        "The two modems exchange low-speed FSK bursts, digital, just slow enough to survive an unoptimized line, listing which modulation standards, compression, and error-correction each one supports."
    } else if i == 3 {
        "Having agreed on a shared standard, both sides probe this specific phone line, a noisy, band-limited, decades-old copper pair, to measure how many bits per second it can actually carry today."
    } else if i == 4 {
        "A burst of full-spectrum noise trains each modem's equalizer and echo canceller to the exact distortions of this one line, the last calibration before real data can flow."
    } else {
        "The speaker goes silent. Every hertz of bandwidth the line can carry is now spent moving your data, not letting you listen to it."
    }
}

/// What the dial-up sim shows at one moment.
pub struct DialupState {
    /// Position in the recording (ms), held at its end during the pause.
    pub now: u64,
    pub phase: usize,
    pub note: &'static str,
}

/// The dial-up sim as a looping animation.
pub struct Dialup;

impl Dialup {
    pub fn duration(&self) -> (d: u64)
        ensures
            d == DURATION,
    {
        DURATION
    }

    /// State at `t` (looped).
    pub fn state_at(&self, t: u64) -> (st: DialupState)
        ensures
            ({
                let tt = (t as nat) % (DURATION as nat);
                let now = if tt < TOTAL_MS { tt } else { TOTAL_MS as nat };
                &&& st.now == now
                &&& st.phase == phase_at_spec(now)
                &&& st.note@ == phase_note(st.phase as int)
            }),
    {
        let tt = t % DURATION;
        let now = if tt < TOTAL_MS { tt } else { TOTAL_MS };
        let phase = phase_at(now);
        DialupState { now, phase, note: phase_note_exec(phase) }
    }
}

} // verus!
