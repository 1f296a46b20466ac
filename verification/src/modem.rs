//! Modem sim: one byte, 'A' (01000001), sent as tones, a higher "mark" tone
//! for each 1 and a lower "space" tone for each 0, and read back bit by bit.
use vstd::prelude::*;

verus! {

pub const BIT_MS: u64 = 650;
/// Time to send all eight bits.
pub const SEND_MS: u64 = 5200;
pub const DURATION: u64 = 6300;

/// The bits of 'A', most significant first.
pub open spec fn bits() -> Seq<u8> {
    seq![0u8, 1, 0, 0, 0, 0, 0, 1]
}

fn bits_exec() -> (v: Vec<u8>)
    ensures
        v@ == bits(),
{
    let v = vec![0u8, 1, 0, 0, 0, 0, 0, 1];
    assert(v@ =~= bits());
    v
}

/// What the modem sim shows at one moment.
pub struct ModemState {
    /// Time into the byte (capped at the byte's end) and whether it is still sending.
    pub tc: u64,
    pub sending: bool,
    /// The bit being sent.
    pub cur_bit: usize,
    /// For each bit: received yet, and its digit.
    pub revealed: Vec<bool>,
    pub note: &'static str,
}

pub open spec fn note_spec(sending: bool, bit: u8) -> Seq<char> {
    if !sending {
        "All 8 bits have arrived. The receiving modem read the tones back as 01000001, byte 0x41, the ASCII character 'A'."@
    } else if bit == 1 {
        "Sending bit 1, the modem plays the higher \"mark\" tone for this bit's whole duration."@
    } else {
        "Sending bit 0, the modem plays the lower \"space\" tone for this bit's whole duration."@
    }
}

/// The modem sim as a looping animation.
pub struct Modem;

impl Modem {
    pub fn duration(&self) -> (d: u64)
        ensures
            d == DURATION,
    {
        DURATION
    }

    /// State at `t` (looped): the bit under way and the bits received so far.
    pub fn state_at(&self, t: u64) -> (st: ModemState)
        ensures
            ({
                let tt = (t as nat) % (DURATION as nat);
                let tc = if tt < SEND_MS { tt } else { SEND_MS as nat };
                let cur = if tc / (BIT_MS as nat) < 7 { tc / (BIT_MS as nat) } else { 7 };
                &&& st.tc == tc
                &&& st.sending == (tt < SEND_MS)
                &&& st.cur_bit == cur
                &&& st.revealed@.len() == 8
                &&& forall|i: int| 0 <= i < 8 ==> #[trigger] st.revealed@[i] == (tc >= (i + 1) * BIT_MS)
                &&& st.note@ == note_spec(st.sending, bits()[cur as int])
            }),
    {
        let tt = t % DURATION;
        let tc = if tt < SEND_MS { tt } else { SEND_MS };
        let sending = tt < SEND_MS;
        let q = (tc / BIT_MS) as usize;
        let cur_bit = if q < 7 { q } else { 7 };
        let b = bits_exec();
        let mut revealed: Vec<bool> = Vec::new();
        let mut i: u64 = 0;
        while i < 8
            invariant
                i <= 8,
                revealed@.len() == i,
                forall|k: int| 0 <= k < i ==> #[trigger] revealed@[k] == (tc >= (k + 1) * BIT_MS),
            decreases 8 - i,
        {
            revealed.push(tc >= (i + 1) * BIT_MS);
            i = i + 1;
        }
        let note = if !sending {
            "All 8 bits have arrived. The receiving modem read the tones back as 01000001, byte 0x41, the ASCII character 'A'."
        } else if b[cur_bit] == 1 {
            "Sending bit 1, the modem plays the higher \"mark\" tone for this bit's whole duration."
        } else {
            "Sending bit 0, the modem plays the lower \"space\" tone for this bit's whole duration."
        };
        ModemState { tc, sending, cur_bit, revealed, note }
    }
}

} // verus!
