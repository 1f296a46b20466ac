//! TCP three-way handshake sim: SYN, SYN-ACK and ACK cross between client
//! and server; each caption stays up for a time set by its length.
use vstd::prelude::*;
use crate::schedule::{caption_ms, caption_time};

verus! {

/// Flight time of each segment (ms).
pub const FLY: u64 = 1800;
/// The established beat before the loop restarts (ms).
pub const LOOP_PAUSE: u64 = 9000;

pub const CAP_SYN: &'static str = "Client picks a random starting sequence number and sends SYN, seq=5000: \"I'll start counting my bytes from 5000.\"";
pub const CAP_SYNACK: &'static str = "Server picks its own starting number and replies SYN-ACK, seq=9000, ack=5001: \"I'll start from 9000; I've received your byte 5000.\"";
pub const CAP_ACK: &'static str = "Client replies ACK, ack=9001: \"Received your byte 9000.\" Three segments, no payload in any of them.";
pub const CAP_EST: &'static str = "Both sides now agree on where the byte count starts. This is what lets TCP say precisely which bytes are missing when one goes astray.";

/// Caption display time: 28 ms per byte, clamped to 2100..5200 ms.
pub open spec fn cap_dur_spec(s: Seq<char>) -> nat {
    caption_time(s, 28, 2100, 5200)
}

/// Caption display time (see `cap_dur_spec`).
pub fn cap_dur(s: &str) -> (r: u64)
    ensures
        r == cap_dur_spec(s@),
        2100 <= r <= 5200,
{
    caption_ms(s, 28, 2100, 5200)
}

/// Stage starts: SYN at 0, then SYN-ACK, ACK and established, each after the
/// previous caption's display time.
pub open spec fn t_synack() -> nat {
    cap_dur_spec(CAP_SYN@)
}

pub open spec fn t_ack() -> nat {
    t_synack() + cap_dur_spec(CAP_SYNACK@)
}

pub open spec fn t_est() -> nat {
    t_ack() + cap_dur_spec(CAP_ACK@)
}

pub open spec fn duration_spec() -> nat {
    t_est() + LOOP_PAUSE as nat
}

/// The stage starts `[SYN, SYN-ACK, ACK, established]` (ms).
pub fn stage_starts() -> (s: [u64; 4])
    ensures
        s@ == seq![0u64, t_synack() as u64, t_ack() as u64, t_est() as u64],
        t_est() < 16000,
{
    let a = cap_dur(CAP_SYN);
    let b = a + cap_dur(CAP_SYNACK);
    let c = b + cap_dur(CAP_ACK);
    let s = [0, a, b, c];
    assert(s@ =~= seq![0u64, t_synack() as u64, t_ack() as u64, t_est() as u64]);
    s
}

/// What the handshake sim shows at one moment.
pub struct HandshakeState {
    /// 0 SYN, 1 SYN-ACK, 2 ACK, 3 established.
    pub stage: usize,
    pub note: &'static str,
    pub server_status: &'static str,
    pub established: bool,
    /// Segments sent so far (0..=3), and how many of them have landed.
    pub sent: usize,
    pub landed: usize,
}

/// The handshake sim as a looping animation.
pub struct TcpHandshake;

impl TcpHandshake {
    pub fn duration(&self) -> (d: u64)
        ensures
            d == duration_spec(),
    {
        stage_starts()[3] + LOOP_PAUSE
    }

    /// State at `t` (looped).
    pub fn state_at(&self, t: u64) -> (st: HandshakeState)
        ensures
            ({
                let tt = (t as nat) % duration_spec();
                let starts = seq![0nat, t_synack(), t_ack(), t_est()];
                &&& st.stage == (if tt >= t_est() { 3usize } else if tt >= t_ack() { 2usize } else if tt >= t_synack() { 1usize } else { 0usize })
                &&& st.note@ == (if st.stage == 3 { CAP_EST@ } else if st.stage == 2 { CAP_ACK@ } else if st.stage == 1 { CAP_SYNACK@ } else { CAP_SYN@ })
                &&& st.server_status@ == (if tt >= t_synack() { "seq 9000"@ } else { "sequence pending"@ })
                &&& st.established == (tt >= t_est())
                &&& st.sent == (if st.stage == 3 { 3usize } else { (st.stage + 1) as usize })
                &&& st.landed as int == (if st.sent >= 1 && tt >= FLY { 1int } else { 0int })
                        + (if st.sent >= 2 && tt >= t_synack() + FLY { 1int } else { 0int })
                        + (if st.sent >= 3 && tt >= t_ack() + FLY { 1int } else { 0int })
            }),
    {
        let s = stage_starts();
        let d = s[3] + LOOP_PAUSE;
        let tt = t % d;
        let stage: usize = if tt >= s[3] { 3 } else if tt >= s[2] { 2 } else if tt >= s[1] { 1 } else { 0 };
        let note = if stage == 3 { CAP_EST } else if stage == 2 { CAP_ACK } else if stage == 1 { CAP_SYNACK } else { CAP_SYN };
        let sent: usize = if stage == 3 { 3 } else { stage + 1 };
        let mut landed: usize = 0;
        let mut m: usize = 0;
        while m < sent
            invariant
                m <= sent <= 3,
                s@ == seq![0u64, t_synack() as u64, t_ack() as u64, t_est() as u64],
                landed as int == (if m >= 1 && tt >= FLY { 1int } else { 0int })
                    + (if m >= 2 && tt >= s[1] + FLY { 1int } else { 0int })
                    + (if m >= 3 && tt >= s[2] + FLY { 1int } else { 0int }),
            decreases sent - m,
        {
            if tt >= s[m] + FLY {
                landed = landed + 1;
            }
            m = m + 1;
        }
        HandshakeState {
            stage,
            note,
            server_status: if tt >= s[1] { "seq 9000" } else { "sequence pending" },
            established: tt >= s[3],
            sent,
            landed,
        }
    }
}

} // verus!
