//! TCP-versus-UDP sim: five segments on each lane, the third lost. TCP
//! buffers what follows the gap, resends the lost segment and delivers in
//! order, late; UDP delivers on time and leaves the gap.
use vstd::prelude::*;
use crate::text::{dec, push_dec, push_str};

verus! {

pub const N: u64 = 5;
pub const INTERVAL: u64 = 650;
pub const FLY: u64 = 1600;
pub const RESEND_AT: u64 = 4300;
pub const LOST_SEQ: u64 = 3;
pub const DURATION: u64 = 8600;

/// Time since a packet sent at `sent` left, while it is on screen: a
/// delivered one until it lands, a lost one for 1500 ms (it stops halfway
/// after 800 ms).
pub open spec fn on_screen(t: nat, sent: nat, lost: bool) -> Option<nat> {
    if t < sent {
        None
    } else if !lost {
        if t - sent > FLY { None } else { Some((t - sent) as nat) }
    } else if t - sent > 1500 {
        None
    } else {
        Some((t - sent) as nat)
    }
}

fn on_screen_exec(t: u64, sent: u64, lost: bool) -> (r: Option<u64>)
    ensures
        match (r, on_screen(t as nat, sent as nat, lost)) {
            (Some(a), Some(b)) => a == b,
            (None, None) => true,
            _ => false,
        },
{
    if t < sent {
        None
    } else if !lost {
        if t - sent > FLY { None } else { Some(t - sent) }
    } else if t - sent > 1500 {
        None
    } else {
        Some(t - sent)
    }
}

/// When the resent segment lands.
pub open spec fn resent_arrives() -> nat {
    (RESEND_AT + FLY) as nat
}

/// Segment `i` has been handed over on the TCP lane: segments before the
/// gap on landing, the lost one and those after it once the resend lands.
pub open spec fn tcp_delivered(i: nat, t: nat) -> bool {
    if i <= 2 { t >= (i - 1) * INTERVAL + FLY } else { t >= resent_arrives() }
}

/// Segment `i` has landed on the TCP lane but waits behind the gap.
pub open spec fn tcp_buffered(i: nat, t: nat) -> bool {
    i > LOST_SEQ && !tcp_delivered(i, t) && t >= (i - 1) * INTERVAL + FLY
}

/// Segment `i` on the TCP lane: delivered, buffered, or awaited.
pub open spec fn tcp_cell(i: nat, t: nat) -> Seq<char> {
    if tcp_delivered(i, t) { dec(i) + "✓"@ } else if tcp_buffered(i, t) { dec(i) + "◦"@ } else { dec(i) }
}

/// TCP hands segments over in order: once one is delivered, so is every
/// segment before it.
pub proof fn lemma_tcp_in_order(i: nat, j: nat, t: nat)
    requires
        1 <= j < i <= N,
        tcp_delivered(i, t),
    ensures
        tcp_delivered(j, t),
{
}

/// UDP does not: at the end of the loop segments 4 and 5 are delivered while
/// 3 is missing for good.
pub proof fn lemma_udp_leaves_gap(t: nat)
    requires
        (N - 1) * INTERVAL + FLY + 50 <= t < DURATION,
    ensures
        udp_cell(4, t) == dec(4) + "✓"@,
        udp_cell(5, t) == dec(5) + "✓"@,
        udp_cell(LOST_SEQ as nat, t) == "×"@,
{
}

/// Segment `i` on the UDP lane: delivered on landing; the lost one is
/// marked missing once the last datagram is in.
pub open spec fn udp_cell(i: nat, t: nat) -> Seq<char> {
    if i == LOST_SEQ {
        if t >= (N - 1) * INTERVAL + FLY + 50 { "×"@ } else { dec(i) }
    } else if t >= (i - 1) * INTERVAL + FLY {
        dec(i) + "✓"@
    } else {
        dec(i)
    }
}

/// Cells 1 to `n`, separated by two spaces.
pub open spec fn row(tcp: bool, t: nat, n: nat) -> Seq<char>
    decreases n,
{
    let cell = if tcp { tcp_cell(n, t) } else { udp_cell(n, t) };
    if n == 0 { seq![] } else if n == 1 { cell } else { row(tcp, t, (n - 1) as nat) + "  "@ + cell }
}

pub open spec fn tcp_note(t: nat) -> Seq<char> {
    if t >= 8476 {
        "Complete, but late, every segment arrived, in order, at the cost of that one round trip."@
    } else if t >= resent_arrives() {
        "The resent segment 3 arrives, the receiver flushes the buffer and delivers 3, 4, 5 in order."@
    } else if t >= RESEND_AT {
        "No ACK for segment 3 after enough time, TCP assumes it was lost and resends it."@
    } else if t >= 4 * INTERVAL + FLY {
        "Segment 5 arrives but waits, it's ahead of the gap at 3, so it's held instead of delivered."@
    } else if t >= 3 * INTERVAL + FLY {
        "Segment 4 arrives but waits, it's ahead of the gap at 3, so it's held instead of delivered."@
    } else {
        "Sending 5 segments; 3 is about to drop."@
    }
}

pub open spec fn udp_note(t: nat) -> Seq<char> {
    if t >= (N - 1) * INTERVAL + FLY {
        "On time, but missing a piece, the stream moved on and left a permanent gap at 3."@
    } else if t >= 2 * INTERVAL + 800 {
        "Datagram 3 is lost. UDP has no mechanism to notice, let alone resend it."@
    } else {
        "Sending 5 datagrams; 3 is about to drop."@
    }
}

/// Packets on screen among segments 1 to `n`, each on both lanes: (number,
/// TCP lane, elapsed, lost).
pub open spec fn shown_upto(t: nat, n: nat) -> Seq<(nat, bool, nat, bool)>
    decreases n,
{
    if n == 0 {
        seq![]
    } else {
        let lost = n == LOST_SEQ;
        match on_screen(t, ((n - 1) * INTERVAL) as nat, lost) {
            Some(e) => shown_upto(t, (n - 1) as nat).push((n, true, e, lost)).push((n, false, e, lost)),
            None => shown_upto(t, (n - 1) as nat),
        }
    }
}

/// Every packet on screen: the segments, then the resend on the TCP lane.
pub open spec fn shown(t: nat) -> Seq<(nat, bool, nat, bool)> {
    match on_screen(t, RESEND_AT as nat, false) {
        Some(e) => shown_upto(t, N as nat).push((LOST_SEQ as nat, true, e, false)),
        None => shown_upto(t, N as nat),
    }
}

/// A packet on screen.
pub struct Pkt {
    pub seq: u64,
    pub tcp: bool,
    pub elapsed: u64,
    pub lost: bool,
}

pub open spec fn pkt_view(p: Pkt) -> (nat, bool, nat, bool) {
    (p.seq as nat, p.tcp, p.elapsed as nat, p.lost)
}

/// What the TCP-versus-UDP sim shows at one moment.
pub struct TcpUdpState {
    pub packets: Vec<Pkt>,
    pub tcp_row: String,
    pub udp_row: String,
    /// Caption ("TCP: ...") and badge ("UDP: ...").
    pub note: String,
    pub badge: String,
}

fn cell_exec(tcp: bool, i: u64, t: u64) -> (s: String)
    requires
        1 <= i <= N,
    ensures
        s@ == (if tcp { tcp_cell(i as nat, t as nat) } else { udp_cell(i as nat, t as nat) }),
{
    let mut s = String::new();
    let resent = RESEND_AT + FLY;
    if tcp {
        let arr = (i - 1) * INTERVAL + FLY;
        push_dec(&mut s, i);
        if i <= 2 {
            if t >= arr {
                push_str(&mut s, "✓");
            }
        } else if i == LOST_SEQ {
            if t >= resent {
                push_str(&mut s, "✓");
            }
        } else if t >= resent {
            push_str(&mut s, "✓");
        } else if t >= arr {
            push_str(&mut s, "◦");
        }
    } else if i == LOST_SEQ {
        if t >= (N - 1) * INTERVAL + FLY + 50 {
            push_str(&mut s, "×");
        } else {
            push_dec(&mut s, i);
        }
    } else {
        push_dec(&mut s, i);
        if t >= (i - 1) * INTERVAL + FLY {
            push_str(&mut s, "✓");
        }
    }
    assert(s@ =~= (if tcp { tcp_cell(i as nat, t as nat) } else { udp_cell(i as nat, t as nat) }));
    s
}

fn row_exec(tcp: bool, t: u64) -> (s: String)
    ensures
        s@ == row(tcp, t as nat, N as nat),
{
    let mut s = String::new();
    let mut i: u64 = 1;
    while i <= N
        invariant
            1 <= i <= N + 1,
            s@ == row(tcp, t as nat, (i - 1) as nat),
        decreases N + 1 - i,
    {
        if i > 1 {
            push_str(&mut s, "  ");
        }
        let c = cell_exec(tcp, i, t);
        push_str(&mut s, c.as_str());
        i = i + 1;
    }
    s
}

/// The TCP-versus-UDP sim as a looping animation.
pub struct TcpVsUdp;

impl TcpVsUdp {
    pub fn duration(&self) -> (d: u64)
        ensures
            d == DURATION,
    {
        DURATION
    }

    /// State at `t` (looped).
    pub fn state_at(&self, t: u64) -> (st: TcpUdpState)
        ensures
            ({
                let tt = (t as nat) % (DURATION as nat);
                &&& st.packets@.map_values(|p: Pkt| pkt_view(p)) == shown(tt)
                &&& st.tcp_row@ == row(true, tt, N as nat)
                &&& st.udp_row@ == row(false, tt, N as nat)
                &&& st.note@ == "TCP: "@ + tcp_note(tt)
                &&& st.badge@ == "UDP: "@ + udp_note(tt)
            }),
    {
        let tt = t % DURATION;
        let mut packets: Vec<Pkt> = Vec::new();
        let mut i: u64 = 1;
        while i <= N
            invariant
                1 <= i <= N + 1,
                packets@.map_values(|p: Pkt| pkt_view(p)) == shown_upto(tt as nat, (i - 1) as nat),
            decreases N + 1 - i,
        {
            let sent = (i - 1) * INTERVAL;
            let lost = i == LOST_SEQ;
            let ghost before = packets@.map_values(|p: Pkt| pkt_view(p));
            match on_screen_exec(tt, sent, lost) {
                Some(e) => {
                    packets.push(Pkt { seq: i, tcp: true, elapsed: e, lost });
                    packets.push(Pkt { seq: i, tcp: false, elapsed: e, lost });
                },
                None => {},
            }
            assert(packets@.map_values(|p: Pkt| pkt_view(p)) =~= shown_upto(tt as nat, i as nat));
            i = i + 1;
        }
        match on_screen_exec(tt, RESEND_AT, false) {
            Some(e) => {
                packets.push(Pkt { seq: LOST_SEQ, tcp: true, elapsed: e, lost: false });
            },
            None => {},
        }
        assert(packets@.map_values(|p: Pkt| pkt_view(p)) =~= shown(tt as nat));
        let resent = RESEND_AT + FLY;
        let tcp = if tt >= 8476 {
            "Complete, but late, every segment arrived, in order, at the cost of that one round trip."
        } else if tt >= resent {
            "The resent segment 3 arrives, the receiver flushes the buffer and delivers 3, 4, 5 in order."
        } else if tt >= RESEND_AT {
            "No ACK for segment 3 after enough time, TCP assumes it was lost and resends it."
        } else if tt >= 4 * INTERVAL + FLY {
            "Segment 5 arrives but waits, it's ahead of the gap at 3, so it's held instead of delivered."
        } else if tt >= 3 * INTERVAL + FLY {
            "Segment 4 arrives but waits, it's ahead of the gap at 3, so it's held instead of delivered."
        } else {
            "Sending 5 segments; 3 is about to drop."
        };
        let udp = if tt >= (N - 1) * INTERVAL + FLY {
            "On time, but missing a piece, the stream moved on and left a permanent gap at 3."
        } else if tt >= 2 * INTERVAL + 800 {
            "Datagram 3 is lost. UDP has no mechanism to notice, let alone resend it."
        } else {
            "Sending 5 datagrams; 3 is about to drop."
        };
        let mut note = String::new();
        push_str(&mut note, "TCP: ");
        push_str(&mut note, tcp);
        let mut badge = String::new();
        push_str(&mut badge, "UDP: ");
        push_str(&mut badge, udp);
        TcpUdpState { packets, tcp_row: row_exec(true, tt), udp_row: row_exec(false, tt), note, badge }
    }
}

} // verus!
