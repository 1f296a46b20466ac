//! QUIC sim: a TCP lane beside a QUIC lane, in three chapters: connection
//! setup (two round trips against one), one lost packet (head-of-line
//! blocking against independent streams), and a network switch (a dead
//! connection against a migrated one).
use vstd::prelude::*;
use crate::rank::{order_by_key, sorted_order};
use crate::text::{dec, push_dec, push_str};

verus! {

pub const FLY: u64 = 2400;
pub const SEND_GAP: u64 = 950;
pub const CH2: u64 = 17600;
pub const CH3: u64 = 29950;
pub const DURATION: u64 = 42950;

pub const CAP_T_SETUP: &'static str = "TCP first: nothing moves until its handshake finishes, then TLS runs its own on top.";
pub const CAP_Q_SETUP: &'static str = "QUIC folds transport setup and encryption into a single handshake.";
pub const CAP_T_1RTT: &'static str = "One round trip spent, and TLS has not even started yet.";
pub const CAP_T_2RTT: &'static str = "Two full round trips of pure latency before the first HTTP byte moved.";
pub const CAP_Q_1RTT: &'static str = "One round trip, or zero on a repeat visit: the request rides the first packet.";
pub const CAP_T_MULTI: &'static str = "Three requests multiplexed over one TCP connection, a single ordered byte stream. B1 is about to drop.";
pub const CAP_Q_MULTI: &'static str = "The same three requests, each on its own independently acknowledged QUIC stream. B1 is about to drop.";
pub const CAP_T_C1: &'static str = "C1 arrives fine but waits, it belongs to a different request, yet it sits behind the gap in the one shared stream.";
pub const CAP_T_B1: &'static str = "B1 finally arrives, only now can C1, A2, B2, C2 be handed over. One loss stalled every request.";
pub const CAP_Q_C2: &'static str = "The loss stalls only stream B, the other requests deliver on schedule.";
pub const CAP_Q_B1: &'static str = "B1 arrives and stream B catches up. A and C never noticed the loss.";
pub const CAP_T_DL: &'static str = "A download in progress. TCP keys the connection to the IP and port tuple.";
pub const CAP_Q_DL: &'static str = "The same download. QUIC names the conversation with a connection ID, not the address.";
pub const CAP_T_LEAVE: &'static str = "The phone leaves Wi-Fi. New IP, so a new tuple, to TCP, this is a different connection.";
pub const CAP_Q_LEAVE: &'static str = "The phone leaves Wi-Fi and gets a new IP. The connection ID has not changed.";
pub const CAP_T_DEAD: &'static str = "The old tuple no longer exists, so the download is dead, TCP must redo both handshakes from act 1.";
pub const CAP_Q_MIGR: &'static str = "Same connection ID, new address, the download never breaks.";

/// One packet: departure, label, direction (server to client when `rtl`),
/// whether it is lost, and its lane.
#[derive(Clone, Copy)]
pub struct Flight {
    pub t: u64,
    pub label: &'static str,
    pub rtl: bool,
    pub lost: bool,
    pub lane_tcp: bool,
}

pub open spec fn fl(t: u64, label: &'static str, rtl: bool, lost: bool, lane_tcp: bool) -> Flight {
    Flight { t, label, rtl, lost, lane_tcp }
}

/// Every packet in the order the chapters list them.
#[verifier::opaque]
pub open spec fn raw_flights() -> Seq<Flight> {
    seq![
        fl(0, "SYN", false, false, true),
        fl(2400, "SYN-ACK", true, false, true),
        fl(4800, "ACK + TLS hello", false, false, true),
        fl(7200, "TLS finished", true, false, true),
        fl(9600, "HTTP request", false, false, true),
        fl(0, "QUIC hello", false, false, false),
        fl(2400, "QUIC reply", true, false, false),
        fl(4800, "HTTP request", false, false, false),
        fl(17600, "A1", false, false, true),
        fl(17600, "A1", false, false, false),
        fl(18550, "B1", false, true, true),
        fl(18550, "B1", false, true, false),
        fl(19500, "C1", false, false, true),
        fl(19500, "C1", false, false, false),
        fl(20450, "A2", false, false, true),
        fl(20450, "A2", false, false, false),
        fl(21400, "B2", false, false, true),
        fl(21400, "B2", false, false, false),
        fl(22350, "C2", false, false, true),
        fl(22350, "C2", false, false, false),
        fl(24350, "B1", false, false, true),
        fl(24350, "B1", false, false, false),
        fl(29950, "1", true, false, true),
        fl(29950, "1", true, false, false),
        fl(30900, "2", true, false, true),
        fl(30900, "2", true, false, false),
        fl(31850, "3", true, false, true),
        fl(31850, "3", true, false, false),
        fl(35450, "4", true, true, true),
        fl(35450, "4", true, false, false),
        fl(36400, "5", true, false, false),
        fl(37350, "6", true, false, false),
    ]
}

pub open spec fn flight_times(v: Seq<Flight>) -> Seq<u64> {
    v.map_values(|f: Flight| f.t)
}

/// The packets in departure order (equal departures keep chapter order).
pub open spec fn flights_spec() -> Seq<Flight> {
    let order = sorted_order(flight_times(raw_flights()));
    Seq::new(order.len(), |i: int| raw_flights()[order[i] as int])
}

fn raw() -> (v: Vec<Flight>)
    ensures
        v@ == raw_flights(),
        v@.len() == 32,
{
    let mut v: Vec<Flight> = Vec::new();
    v.push(Flight { t: 0, label: "SYN", rtl: false, lost: false, lane_tcp: true });
    v.push(Flight { t: 2400, label: "SYN-ACK", rtl: true, lost: false, lane_tcp: true });
    v.push(Flight { t: 4800, label: "ACK + TLS hello", rtl: false, lost: false, lane_tcp: true });
    v.push(Flight { t: 7200, label: "TLS finished", rtl: true, lost: false, lane_tcp: true });
    v.push(Flight { t: 9600, label: "HTTP request", rtl: false, lost: false, lane_tcp: true });
    v.push(Flight { t: 0, label: "QUIC hello", rtl: false, lost: false, lane_tcp: false });
    v.push(Flight { t: 2400, label: "QUIC reply", rtl: true, lost: false, lane_tcp: false });
    v.push(Flight { t: 4800, label: "HTTP request", rtl: false, lost: false, lane_tcp: false });
    v.push(Flight { t: 17600, label: "A1", rtl: false, lost: false, lane_tcp: true });
    v.push(Flight { t: 17600, label: "A1", rtl: false, lost: false, lane_tcp: false });
    v.push(Flight { t: 18550, label: "B1", rtl: false, lost: true, lane_tcp: true });
    v.push(Flight { t: 18550, label: "B1", rtl: false, lost: true, lane_tcp: false });
    v.push(Flight { t: 19500, label: "C1", rtl: false, lost: false, lane_tcp: true });
    v.push(Flight { t: 19500, label: "C1", rtl: false, lost: false, lane_tcp: false });
    v.push(Flight { t: 20450, label: "A2", rtl: false, lost: false, lane_tcp: true });
    v.push(Flight { t: 20450, label: "A2", rtl: false, lost: false, lane_tcp: false });
    v.push(Flight { t: 21400, label: "B2", rtl: false, lost: false, lane_tcp: true });
    v.push(Flight { t: 21400, label: "B2", rtl: false, lost: false, lane_tcp: false });
    v.push(Flight { t: 22350, label: "C2", rtl: false, lost: false, lane_tcp: true });
    v.push(Flight { t: 22350, label: "C2", rtl: false, lost: false, lane_tcp: false });
    v.push(Flight { t: 24350, label: "B1", rtl: false, lost: false, lane_tcp: true });
    v.push(Flight { t: 24350, label: "B1", rtl: false, lost: false, lane_tcp: false });
    v.push(Flight { t: 29950, label: "1", rtl: true, lost: false, lane_tcp: true });
    v.push(Flight { t: 29950, label: "1", rtl: true, lost: false, lane_tcp: false });
    v.push(Flight { t: 30900, label: "2", rtl: true, lost: false, lane_tcp: true });
    v.push(Flight { t: 30900, label: "2", rtl: true, lost: false, lane_tcp: false });
    v.push(Flight { t: 31850, label: "3", rtl: true, lost: false, lane_tcp: true });
    v.push(Flight { t: 31850, label: "3", rtl: true, lost: false, lane_tcp: false });
    v.push(Flight { t: 35450, label: "4", rtl: true, lost: true, lane_tcp: true });
    v.push(Flight { t: 35450, label: "4", rtl: true, lost: false, lane_tcp: false });
    v.push(Flight { t: 36400, label: "5", rtl: true, lost: false, lane_tcp: false });
    v.push(Flight { t: 37350, label: "6", rtl: true, lost: false, lane_tcp: false });
    proof {
        reveal(raw_flights);
    }
    assert(v@ =~= raw_flights());
    v
}

/// The packets in departure order.
pub fn flights() -> (v: Vec<Flight>)
    ensures
        v@ == flights_spec(),
        v@.len() == 32,
        forall|i: int, j: int| 0 <= i < j < v@.len() ==> v@[i].t <= v@[j].t,
{
    let raw = raw();
    let mut times: Vec<u64> = Vec::new();
    let mut i: usize = 0;
    while i < raw.len()
        invariant
            i <= raw@.len(),
            times@ == flight_times(raw@).take(i as int),
        decreases raw@.len() - i,
    {
        times.push(raw[i].t);
        assert(flight_times(raw@).take(i + 1) =~= flight_times(raw@).take(i as int).push(raw@[i as int].t));
        i = i + 1;
    }
    assert(times@ =~= flight_times(raw@));
    let order = order_by_key(&times);
    let mut v: Vec<Flight> = Vec::new();
    let mut k: usize = 0;
    while k < order.len()
        invariant
            k <= order@.len(),
            order@ == sorted_order(flight_times(raw_flights())),
            order@.len() == raw@.len(),
            raw@ == raw_flights(),
            forall|q: int| 0 <= q < order@.len() ==> #[trigger] order@[q] < raw@.len(),
            v@ =~= Seq::new(k as nat, |q: int| raw_flights()[order@[q] as int]),
        decreases order@.len() - k,
    {
        v.push(raw[order[k]]);
        k = k + 1;
    }
    proof {
        let keys = flight_times(raw@);
        assert forall|i: int, j: int| 0 <= i < j < v@.len() implies v@[i].t <= v@[j].t by {
            assert(keys[order@[i] as int] <= keys[order@[j] as int]);
        }
    }
    v
}

/// A packet on screen: time since departure and the time it takes to cross
/// (a lost packet stops halfway and lingers there before it vanishes);
/// position is `elapsed / crossing` capped at 1, so a lost packet waits at
/// its halfway mark, mirrored when it travels server to client.
pub struct Shown {
    pub label: &'static str,
    pub rtl: bool,
    pub lane_tcp: bool,
    pub elapsed: u64,
    pub crossing: u64,
}

/// Elapsed time of packet `f` at `t` if it is on screen: a lost packet for
/// 700 ms beyond half its flight, any other for its whole flight.
pub open spec fn on_screen(f: Flight, t: nat) -> Option<(nat, nat)> {
    let dt: nat = if t >= f.t { (t - f.t) as nat } else { 0 };
    if f.lost {
        if dt < FLY / 2 + 700 { Some((dt, (FLY / 2) as nat)) } else { None }
    } else {
        if dt < FLY { Some((dt, FLY as nat)) } else { None }
    }
}

/// Packets on screen at `t`, in departure order.
pub open spec fn shown_upto(fs: Seq<Flight>, t: nat, n: int) -> Seq<(Seq<char>, bool, bool, nat, nat)>
    decreases n,
{
    if n <= 0 {
        seq![]
    } else {
        let f = fs[n - 1];
        match on_screen(f, t) {
            Some((e, c)) => shown_upto(fs, t, n - 1).push((f.label@, f.rtl, f.lane_tcp, e, c)),
            None => shown_upto(fs, t, n - 1),
        }
    }
}

pub open spec fn shown_view(s: Shown) -> (Seq<char>, bool, bool, nat, nat) {
    (s.label@, s.rtl, s.lane_tcp, s.elapsed as nat, s.crossing as nat)
}

pub open spec fn arrive(i: int, ct: nat) -> bool {
    ct >= i * SEND_GAP + FLY
}

pub open spec fn slot_name(i: int) -> Seq<char> {
    if i == 0 { "A1"@ } else if i == 1 { "B1"@ } else if i == 2 { "C1"@ } else if i == 3 { "A2"@ } else if i == 4 { "B2"@ } else { "C2"@ }
}

/// Mark of packet `i` (A1, B1, C1, A2, B2, C2) in chapter two: B1 is
/// pending, lost, then back; on TCP everything after A1 waits for B1, on
/// QUIC only B2 does.
pub open spec fn slot_mark(i: int, ct: nat, tcp: bool) -> Seq<char> {
    let b1_back = ct >= 9150;
    if i == 1 {
        if b1_back { "✓"@ } else if ct >= 2850 { "×"@ } else { "…"@ }
    } else if !arrive(i, ct) {
        "…"@
    } else if tcp {
        if b1_back || i == 0 { "✓"@ } else { "◦"@ }
    } else if i == 4 {
        if b1_back { "✓"@ } else { "◦"@ }
    } else {
        "✓"@
    }
}

/// Head-of-line blocking: on the TCP lane nothing after A1 is marked
/// delivered before B1 is back, while on QUIC every packet of streams A and
/// C is delivered as soon as it arrives.
pub proof fn lemma_head_of_line(i: int, ct: nat)
    requires
        0 <= i < 6,
    ensures
        0 < i && ct < 9150 ==> slot_mark(i, ct, true) != "✓"@,
        i != 1 && i != 4 && arrive(i, ct) ==> slot_mark(i, ct, false) == "✓"@,
{
    reveal_strlit("✓");
    reveal_strlit("×");
    reveal_strlit("…");
    reveal_strlit("◦");
    assert("✓"@[0] != "×"@[0]);
    assert("✓"@[0] != "…"@[0]);
    assert("✓"@[0] != "◦"@[0]);
}

/// Mark of download segment `i` in chapter three: TCP loses everything
/// after the switch, QUIC delivers the rest 5500 ms in.
pub open spec fn dl_mark(i: int, ct: nat, tcp: bool) -> Seq<char> {
    if i < 3 {
        if arrive(i, ct) { "✓"@ } else { "…"@ }
    } else if tcp {
        "×"@
    } else if ct >= 5500 + (i - 3) * SEND_GAP + FLY {
        "✓"@
    } else {
        "…"@
    }
}

/// The first `n` marks of a row, space separated.
pub open spec fn row(ch: int, ct: nat, tcp: bool, n: int) -> Seq<char>
    decreases n,
{
    if n <= 0 {
        seq![]
    } else {
        let item = if ch == 2 { slot_name(n - 1) + slot_mark(n - 1, ct, tcp) } else { dec(n as nat) + dl_mark(n - 1, ct, tcp) };
        if n == 1 { item } else { row(ch, ct, tcp, n - 1) + " "@ + item }
    }
}

fn row_exec(ch: u64, ct: u64, tcp: bool) -> (s: String)
    requires
        ch == 2 || ch == 3,
    ensures
        s@ == row(ch as int, ct as nat, tcp, 6),
{
    let mut s = String::new();
    let mut i: u64 = 0;
    while i < 6
        invariant
            i <= 6,
            ch == 2 || ch == 3,
            s@ == row(ch as int, ct as nat, tcp, i as int),
        decreases 6 - i,
    {
        if i > 0 {
            push_str(&mut s, " ");
        }
        if ch == 2 {
            let name = if i == 0 { "A1" } else if i == 1 { "B1" } else if i == 2 { "C1" } else if i == 3 { "A2" } else if i == 4 { "B2" } else { "C2" };
            push_str(&mut s, name);
            let b1_back = ct >= 9150;
            let arrived = ct >= i * SEND_GAP + FLY;
            let mark = if i == 1 {
                if b1_back { "✓" } else if ct >= 2850 { "×" } else { "…" }
            } else if !arrived {
                "…"
            } else if tcp {
                if b1_back || i == 0 { "✓" } else { "◦" }
            } else if i == 4 {
                if b1_back { "✓" } else { "◦" }
            } else {
                "✓"
            };
            push_str(&mut s, mark);
        } else {
            push_dec(&mut s, i + 1);
            let mark = if i < 3 {
                if ct >= i * SEND_GAP + FLY { "✓" } else { "…" }
            } else if tcp {
                "×"
            } else if ct >= 5500 + (i - 3) * SEND_GAP + FLY {
                "✓"
            } else {
                "…"
            };
            push_str(&mut s, mark);
        }
        i = i + 1;
    }
    s
}

/// Chapter of `tt` and time into it.
pub open spec fn chapter(tt: nat) -> int {
    if tt >= CH3 { 3 } else if tt >= CH2 { 2 } else { 1 }
}

pub open spec fn chapter_time(tt: nat) -> nat {
    if tt >= CH3 { (tt - CH3) as nat } else if tt >= CH2 { (tt - CH2) as nat } else { tt }
}

pub open spec fn tcp_note(ch: int, ct: nat) -> Seq<char> {
    if ch == 1 {
        if ct >= 12000 { CAP_T_2RTT@ } else if ct >= 4800 { CAP_T_1RTT@ } else { CAP_T_SETUP@ }
    } else if ch == 2 {
        if ct >= 9150 { CAP_T_B1@ } else if ct >= 4300 { CAP_T_C1@ } else { CAP_T_MULTI@ }
    } else {
        if ct >= 7100 { CAP_T_DEAD@ } else if ct >= 4600 { CAP_T_LEAVE@ } else { CAP_T_DL@ }
    }
}

pub open spec fn quic_note(ch: int, ct: nat) -> Seq<char> {
    if ch == 1 {
        if ct >= 7200 { CAP_Q_1RTT@ } else { CAP_Q_SETUP@ }
    } else if ch == 2 {
        if ct >= 9150 { CAP_Q_B1@ } else if ct >= 7150 { CAP_Q_C2@ } else { CAP_Q_MULTI@ }
    } else {
        if ct >= 9800 { CAP_Q_MIGR@ } else if ct >= 4600 { CAP_Q_LEAVE@ } else { CAP_Q_DL@ }
    }
}

/// The four side texts of a chapter: TCP heading, TCP row, QUIC heading, QUIC row.
pub open spec fn side_texts(ch: int, ct: nat) -> Seq<Seq<char>> {
    if ch == 1 {
        let tcp_rtt: nat = if ct >= 9600 { 2 } else if ct >= 4800 { 1 } else { 0 };
        let quic_rtt: nat = if ct >= 4800 { 1 } else { 0 };
        seq!["TCP"@, "round trips before first HTTP byte → "@ + dec(tcp_rtt), "QUIC"@,
            "round trips before first HTTP byte → "@ + dec(quic_rtt)]
    } else if ch == 2 {
        seq!["TCP · one ordered stream"@, row(2, ct, true, 6), "QUIC · independent streams"@, row(2, ct, false, 6)]
    } else {
        let addr = if ct >= 4600 { "cellular, 198.51.100.4"@ } else { "Wi-Fi, 192.0.2.7"@ };
        seq!["TCP · client address → "@ + addr, row(3, ct, true, 6), "QUIC · client address → "@ + addr, row(3, ct, false, 6)]
    }
}

/// What the QUIC sim shows at one moment.
pub struct QuicState {
    pub chapter: u64,
    pub ct: u64,
    /// Caption line: "TCP: " and the TCP note.
    pub note: String,
    /// Badge: "QUIC: " and the QUIC note.
    pub badge: String,
    /// Side texts; the rows are bright in chapters two and three.
    pub texts: Vec<String>,
    pub shown: Vec<Shown>,
}

/// The QUIC sim as a looping animation.
pub struct Quic;

impl Quic {
    pub fn duration(&self) -> (d: u64)
        ensures
            d == DURATION,
    {
        DURATION
    }

    /// State at `t` (looped).
    pub fn state_at(&self, t: u64) -> (st: QuicState)
        ensures
            ({
                let tt = (t as nat) % (DURATION as nat);
                let ch = chapter(tt);
                let ct = chapter_time(tt);
                &&& st.chapter == ch
                &&& st.ct == ct
                &&& st.note@ == "TCP: "@ + tcp_note(ch, ct)
                &&& st.badge@ == "QUIC: "@ + quic_note(ch, ct)
                &&& st.texts@.map_values(|s: String| s@) == side_texts(ch, ct)
                &&& st.shown@.map_values(|s: Shown| shown_view(s)) == shown_upto(flights_spec(), tt, 32)
            }),
    {
        let tt = t % DURATION;
        let ch: u64 = if tt >= CH3 { 3 } else if tt >= CH2 { 2 } else { 1 };
        let ct = if ch == 3 { tt - CH3 } else if ch == 2 { tt - CH2 } else { tt };
        let fs = flights();
        let mut shown: Vec<Shown> = Vec::new();
        let mut i: usize = 0;
        while i < fs.len()
            invariant
                i <= fs@.len(),
                fs@ == flights_spec(),
                fs@.len() == 32,
                shown@.map_values(|s: Shown| shown_view(s)) == shown_upto(flights_spec(), tt as nat, i as int),
            decreases fs@.len() - i,
        {
            let f = fs[i];
            let dt = if tt >= f.t { tt - f.t } else { 0 };
            let ghost before = shown@.map_values(|s: Shown| shown_view(s));
            if f.lost {
                if dt < FLY / 2 + 700 {
                    shown.push(Shown { label: f.label, rtl: f.rtl, lane_tcp: f.lane_tcp, elapsed: dt, crossing: FLY / 2 });
                }
            } else if dt < FLY {
                shown.push(Shown { label: f.label, rtl: f.rtl, lane_tcp: f.lane_tcp, elapsed: dt, crossing: FLY });
            }
            assert(shown@.map_values(|s: Shown| shown_view(s)) =~= shown_upto(flights_spec(), tt as nat, i + 1));
            i = i + 1;
        }
        let tcp = if ch == 1 {
            if ct >= 12000 { CAP_T_2RTT } else if ct >= 4800 { CAP_T_1RTT } else { CAP_T_SETUP }
        } else if ch == 2 {
            if ct >= 9150 { CAP_T_B1 } else if ct >= 4300 { CAP_T_C1 } else { CAP_T_MULTI }
        } else {
            if ct >= 7100 { CAP_T_DEAD } else if ct >= 4600 { CAP_T_LEAVE } else { CAP_T_DL }
        };
        let quic = if ch == 1 {
            if ct >= 7200 { CAP_Q_1RTT } else { CAP_Q_SETUP }
        } else if ch == 2 {
            if ct >= 9150 { CAP_Q_B1 } else if ct >= 7150 { CAP_Q_C2 } else { CAP_Q_MULTI }
        } else {
            if ct >= 9800 { CAP_Q_MIGR } else if ct >= 4600 { CAP_Q_LEAVE } else { CAP_Q_DL }
        };
        let mut note = String::new();
        push_str(&mut note, "TCP: ");
        push_str(&mut note, tcp);
        let mut badge = String::new();
        push_str(&mut badge, "QUIC: ");
        push_str(&mut badge, quic);
        let mut texts: Vec<String> = Vec::new();
        if ch == 1 {
            let tcp_rtt: u64 = if ct >= 9600 { 2 } else if ct >= 4800 { 1 } else { 0 };
            let quic_rtt: u64 = if ct >= 4800 { 1 } else { 0 };
            let mut a = String::new();
            push_str(&mut a, "TCP");
            let mut b = String::new();
            push_str(&mut b, "round trips before first HTTP byte → ");
            push_dec(&mut b, tcp_rtt);
            let mut c = String::new();
            push_str(&mut c, "QUIC");
            let mut d = String::new();
            push_str(&mut d, "round trips before first HTTP byte → ");
            push_dec(&mut d, quic_rtt);
            texts.push(a);
            texts.push(b);
            texts.push(c);
            texts.push(d);
        } else if ch == 2 {
            let mut a = String::new();
            push_str(&mut a, "TCP · one ordered stream");
            let mut c = String::new();
            push_str(&mut c, "QUIC · independent streams");
            texts.push(a);
            texts.push(row_exec(2, ct, true));
            texts.push(c);
            texts.push(row_exec(2, ct, false));
        } else {
            let addr = if ct >= 4600 { "cellular, 198.51.100.4" } else { "Wi-Fi, 192.0.2.7" };
            let mut a = String::new();
            push_str(&mut a, "TCP · client address → ");
            push_str(&mut a, addr);
            let mut c = String::new();
            push_str(&mut c, "QUIC · client address → ");
            push_str(&mut c, addr);
            texts.push(a);
            texts.push(row_exec(3, ct, true));
            texts.push(c);
            texts.push(row_exec(3, ct, false));
        }
        assert(texts@.map_values(|s: String| s@) =~= side_texts(ch as int, ct as nat));
        QuicState { chapter: ch, ct, note, badge, texts, shown }
    }
}

} // verus!
