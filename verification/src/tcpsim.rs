//! TCP reliable-delivery sim: a sliding window of four over eight packets,
//! packet 3 lost in flight. The sender keeps the window full, the receiver
//! buffers 4 to 6 behind the gap, three duplicate ACKs trigger the resend,
//! and everything is delivered in order.
use vstd::prelude::*;
use crate::schedule::{caption_ms, caption_time, max_nat};
use crate::text::{dec, push_dec, push_str};

verus! {

pub const N: u64 = 8;
pub const WINDOW: u64 = 4;
pub const FLY: u64 = 2200;
pub const ACK_FLY: u64 = 1800;

pub const NOTE_NEW: &'static str = "New message: the sender fills the window with packets 1–4 without waiting for each to be confirmed.";
pub const NOTE_LOST: &'static str = "Packet 3 is lost in the network, but the sender doesn't know yet, and keeps the window full.";
pub const NOTE_ACK1: &'static str = "ACK 1 confirms everything through 1, the window slides forward and the next packet goes out.";
pub const NOTE_ACK2: &'static str = "ACK 2 confirms everything through 2, the window slides forward and the next packet goes out.";
pub const NOTE_BUF4: &'static str = "Packet 4 arrived but can't be delivered yet, it's buffered behind the gap.";
pub const NOTE_BUF5: &'static str = "Packet 5 arrived but can't be delivered yet, it's buffered behind the gap.";
pub const NOTE_BUF6: &'static str = "Packet 6 arrived but can't be delivered yet, it's buffered behind the gap.";
pub const NOTE_DUP: &'static str = "3 duplicate ACKs for 2, the sender realises packet 3 was lost and resends it.";
pub const NOTE_GAP: &'static str = "The missing packet arrives, the receiver fills the gap and delivers 3–6 in order.";
pub const NOTE_ACK6: &'static str = "ACK 6 confirms everything through 6, the window slides forward and the next packet goes out.";
pub const NOTE_ACK7: &'static str = "ACK 7 confirms everything through 7, the window slides forward and the next packet goes out.";
pub const NOTE_DONE: &'static str = "Whole message delivered in order, despite a loss along the way, that's TCP on top of best-effort IP.";

/// Caption timing: 28 ms per byte, clamped to 1100..3400 ms.
pub open spec fn cap(s: Seq<char>) -> nat {
    caption_time(s, 28, 1100, 3400)
}

/// The event trace: sends (time, sequence number, lost), ACK departures
/// (time, number), the window base over time, the delivered pointer over
/// time, and the captions over time.
pub struct Trace {
    pub sends: Vec<(u64, u64, bool)>,
    pub acks: Vec<(u64, u64)>,
    pub o_at: Vec<(u64, u64)>,
    pub j_at: Vec<(u64, u64)>,
    pub notes: Vec<(u64, &'static str)>,
    pub duration: u64,
}

pub open spec fn sends_spec() -> Seq<(u64, u64, bool)> {
    seq![(0u64, 1u64, false), (700u64, 2u64, false), (1400u64, 3u64, true), (2100u64, 4u64, false), (4000u64, 5u64, false),
        (4700u64, 6u64, false), (8700u64, 3u64, false), (12700u64, 7u64, false), (16700u64, 8u64, false)]
}

pub open spec fn acks_spec() -> Seq<(u64, u64)> {
    seq![(2200u64, 1u64), (2900u64, 2u64), (4300u64, 2u64), (6200u64, 2u64), (6900u64, 2u64), (10900u64, 6u64),
        (14900u64, 7u64), (18900u64, 8u64)]
}

pub open spec fn o_spec() -> Seq<(u64, u64)> {
    seq![(0u64, 1u64), (4000u64, 2u64), (4700u64, 3u64), (12700u64, 7u64), (16700u64, 8u64), (20700u64, 9u64)]
}

pub open spec fn j_spec() -> Seq<(u64, u64)> {
    seq![(0u64, 0u64), (2200u64, 1u64), (2900u64, 2u64), (10900u64, 6u64), (14900u64, 7u64), (18900u64, 8u64)]
}

pub open spec fn notes_spec() -> Seq<(u64, Seq<char>)> {
    seq![(0u64, NOTE_NEW@), (2500u64, NOTE_LOST@), (4000u64, NOTE_ACK1@), (4300u64, NOTE_BUF4@), (4700u64, NOTE_ACK2@),
        (6200u64, NOTE_BUF5@), (6900u64, NOTE_BUF6@), (8700u64, NOTE_DUP@), (10900u64, NOTE_GAP@), (12700u64, NOTE_ACK6@),
        (16700u64, NOTE_ACK7@), (20700u64, NOTE_DONE@)]
}

/// Loop length: the last caption stays at least 1700 ms.
pub open spec fn duration_spec() -> nat {
    20700 + max_nat(cap(NOTE_DONE@), 1700)
}

pub open spec fn notes_view(v: Seq<(u64, &'static str)>) -> Seq<(u64, Seq<char>)> {
    v.map_values(|p: (u64, &'static str)| (p.0, p.1@))
}

/// The trace with packet 3 lost and resent after three duplicate ACKs.
pub fn trace() -> (tr: Trace)
    ensures
        tr.sends@ == sends_spec(),
        tr.acks@ == acks_spec(),
        tr.o_at@ == o_spec(),
        tr.j_at@ == j_spec(),
        notes_view(tr.notes@) == notes_spec(),
        tr.duration == duration_spec(),
{
    let sends = vec![(0u64, 1u64, false), (700, 2, false), (1400, 3, true), (2100, 4, false), (4000, 5, false),
        (4700, 6, false), (8700, 3, false), (12700, 7, false), (16700, 8, false)];
    let acks = vec![(2200u64, 1u64), (2900, 2), (4300, 2), (6200, 2), (6900, 2), (10900, 6), (14900, 7), (18900, 8)];
    let o_at = vec![(0u64, 1u64), (4000, 2), (4700, 3), (12700, 7), (16700, 8), (20700, 9)];
    let j_at = vec![(0u64, 0u64), (2200, 1), (2900, 2), (10900, 6), (14900, 7), (18900, 8)];
    let notes = vec![(0u64, NOTE_NEW), (2500, NOTE_LOST), (4000, NOTE_ACK1), (4300, NOTE_BUF4), (4700, NOTE_ACK2),
        (6200, NOTE_BUF5), (6900, NOTE_BUF6), (8700, NOTE_DUP), (10900, NOTE_GAP), (12700, NOTE_ACK6),
        (16700, NOTE_ACK7), (20700, NOTE_DONE)];
    assert(sends@ =~= sends_spec());
    assert(acks@ =~= acks_spec());
    assert(o_at@ =~= o_spec());
    assert(j_at@ =~= j_spec());
    assert(notes_view(notes@) =~= notes_spec());
    let c = caption_ms(NOTE_DONE, 28, 1100, 3400);
    let duration = 20700 + if c < 1700 { 1700 } else { c };
    Trace { sends, acks, o_at, j_at, notes, duration }
}

/// Value of the last entry at or before `t` among the first `n`, or 0.
pub open spec fn lookup(table: Seq<(u64, u64)>, t: nat, n: int) -> u64
    decreases n,
{
    if n <= 0 { 0 } else if table[n - 1].0 <= t { table[n - 1].1 } else { lookup(table, t, n - 1) }
}

fn lookup_exec(table: &Vec<(u64, u64)>, t: u64) -> (v: u64)
    ensures
        v == lookup(table@, t as nat, table@.len() as int),
{
    let mut i = table.len();
    while i > 0
        invariant
            i <= table@.len(),
            lookup(table@, t as nat, table@.len() as int) == lookup(table@, t as nat, i as int),
        decreases i,
    {
        if table[i - 1].0 <= t {
            return table[i - 1].1;
        }
        i = i - 1;
    }
    0
}

/// Caption of the last note at or before `t` among the first `n`, or the first.
pub open spec fn note_at(notes: Seq<(u64, Seq<char>)>, t: nat, n: int) -> Seq<char>
    decreases n,
{
    if n <= 0 { notes[0].1 } else if notes[n - 1].0 <= t { notes[n - 1].1 } else { note_at(notes, t, n - 1) }
}

/// A send is in flight at `t`: a lost packet for 360 ms past half its flight.
pub open spec fn send_visible(s: (u64, u64, bool), t: nat) -> bool {
    t >= s.0 && t - s.0 < (if s.2 { (FLY / 2 + 360) as int } else { FLY as int })
}

/// Packets on screen among the first `n` sends: (number, elapsed, crossing time).
pub open spec fn sends_shown(sends: Seq<(u64, u64, bool)>, t: nat, n: int) -> Seq<(u64, nat, nat)>
    decreases n,
{
    if n <= 0 {
        seq![]
    } else if send_visible(sends[n - 1], t) {
        sends_shown(sends, t, n - 1).push((sends[n - 1].1, (t - sends[n - 1].0) as nat,
            if sends[n - 1].2 { (FLY / 2) as nat } else { FLY as nat }))
    } else {
        sends_shown(sends, t, n - 1)
    }
}

/// ACKs on screen among the first `n`: (number, elapsed).
pub open spec fn acks_shown(acks: Seq<(u64, u64)>, t: nat, n: int) -> Seq<(u64, nat)>
    decreases n,
{
    if n <= 0 {
        seq![]
    } else if t >= acks[n - 1].0 && t < acks[n - 1].0 + ACK_FLY {
        acks_shown(acks, t, n - 1).push((acks[n - 1].1, (t - acks[n - 1].0) as nat))
    } else {
        acks_shown(acks, t, n - 1)
    }
}

/// Some send of `seq` is in flight at `t`.
pub open spec fn inflight(sends: Seq<(u64, u64, bool)>, seq: u64, t: nat) -> bool {
    exists|k: int| 0 <= k < sends.len() && sends[k].1 == seq && #[trigger] send_visible(sends[k], t)
}

/// Packet 3 is marked lost from the moment it vanishes until its resend.
pub open spec fn lost_now(seq: u64, t: nat) -> bool {
    seq == 3 && 2500 <= t < 8700
}

/// Sender cell of packet `i` with window base `o`: acknowledged, lost, in
/// flight, waiting in the window, or outside it.
pub open spec fn window_cell(i: u64, o: u64, t: nat) -> Seq<char> {
    dec(i as nat) + if i < o { "✓"@ } else if i < o + WINDOW && i <= N {
        if lost_now(i, t) { "✕"@ } else if inflight(sends_spec(), i, t) { "→"@ } else { "□"@ }
    } else { "·"@ }
}

/// Arrival time of packet `i` at the receiver (packet 3: its resend).
pub open spec fn arrival(i: u64) -> nat {
    if i == 1 { 2200 } else if i == 2 { 2900 } else if i == 3 { 10900 } else if i == 4 { 4300 }
    else if i == 5 { 6200 } else if i == 6 { 6900 } else if i == 7 { 14900 } else { 18900 }
}

/// Receiver slot of packet `i` with delivered pointer `j`: delivered,
/// buffered, or awaited.
pub open spec fn slot_cell(i: u64, j: u64, t: nat) -> Seq<char> {
    if i <= j { dec(i as nat) + "✓"@ } else if t >= arrival(i) { dec(i as nat) + "◦"@ } else { dec(i as nat) }
}

/// Cells 1 to `n`, space separated.
pub open spec fn cells(f: spec_fn(u64) -> Seq<char>, n: nat) -> Seq<char>
    decreases n,
{
    if n == 0 { seq![] } else if n == 1 { f(1) } else { cells(f, (n - 1) as nat) + " "@ + f(n as u64) }
}

/// What the TCP sim shows at one moment.
pub struct TcpState {
    pub note: &'static str,
    /// Window base and delivered pointer.
    pub base: u64,
    pub delivered: u64,
    /// Packets in flight: (number, elapsed, crossing time).
    pub packets: Vec<(u64, u64, u64)>,
    /// ACKs in flight: (number, elapsed of `ACK_FLY`).
    pub acks: Vec<(u64, u64)>,
    /// The sender window row and the receiver slot row.
    pub window: String,
    pub slots: String,
}

/// The TCP sim as a looping animation.
pub struct TcpSim;

impl TcpSim {
    pub fn duration(&self) -> (d: u64)
        ensures
            d == duration_spec(),
    {
        trace().duration
    }

    /// State at `t` (looped).
    pub fn state_at(&self, t: u64) -> (st: TcpState)
        ensures
            ({
                let tt = (t as nat) % duration_spec();
                let o = lookup(o_spec(), tt, 6);
                let j = lookup(j_spec(), tt, 6);
                &&& st.base == o
                &&& st.delivered == j
                &&& st.note@ == note_at(notes_spec(), tt, 12)
                &&& st.packets@.map_values(|p: (u64, u64, u64)| (p.0, p.1 as nat, p.2 as nat)) == sends_shown(sends_spec(), tt, 9)
                &&& st.acks@.map_values(|p: (u64, u64)| (p.0, p.1 as nat)) == acks_shown(acks_spec(), tt, 8)
                &&& st.window@ == cells(|i: u64| window_cell(i, o, tt), N as nat)
                &&& st.slots@ == cells(|i: u64| slot_cell(i, j, tt), N as nat)
            }),
    {
        let tr = trace();
        let tt = t % tr.duration;
        let o = lookup_exec(&tr.o_at, tt);
        let j = lookup_exec(&tr.j_at, tt);
        assert(notes_view(tr.notes@).len() == tr.notes@.len());
        assert(notes_view(tr.notes@)[0] == (tr.notes@[0].0, tr.notes@[0].1@));
        let mut note = tr.notes[0].1;
        let mut k: usize = 0;
        while k < tr.notes.len()
            invariant
                k <= tr.notes@.len(),
                notes_view(tr.notes@) == notes_spec(),
                note@ == note_at(notes_spec(), tt as nat, k as int),
            decreases tr.notes@.len() - k,
        {
            assert(notes_view(tr.notes@)[k as int] == (tr.notes@[k as int].0, tr.notes@[k as int].1@));
            if tr.notes[k].0 <= tt {
                note = tr.notes[k].1;
            }
            k = k + 1;
        }
        let mut packets: Vec<(u64, u64, u64)> = Vec::new();
        let mut k: usize = 0;
        while k < tr.sends.len()
            invariant
                k <= tr.sends@.len(),
                tr.sends@ == sends_spec(),
                packets@.map_values(|p: (u64, u64, u64)| (p.0, p.1 as nat, p.2 as nat)) == sends_shown(sends_spec(), tt as nat, k as int),
            decreases tr.sends@.len() - k,
        {
            let (at, sq, lost) = tr.sends[k];
            if tt >= at {
                let dt = tt - at;
                let (dur, visible) = if lost { (FLY / 2, dt < FLY / 2 + 360) } else { (FLY, dt < FLY) };
                if visible {
                    packets.push((sq, dt, dur));
                }
            }
            assert(packets@.map_values(|p: (u64, u64, u64)| (p.0, p.1 as nat, p.2 as nat)) =~= sends_shown(sends_spec(), tt as nat, k + 1));
            k = k + 1;
        }
        let mut acks: Vec<(u64, u64)> = Vec::new();
        let mut k: usize = 0;
        while k < tr.acks.len()
            invariant
                k <= tr.acks@.len(),
                tr.acks@ == acks_spec(),
                acks@.map_values(|p: (u64, u64)| (p.0, p.1 as nat)) == acks_shown(acks_spec(), tt as nat, k as int),
            decreases tr.acks@.len() - k,
        {
            let (at, n) = tr.acks[k];
            if tt >= at && tt < at + ACK_FLY {
                acks.push((n, tt - at));
            }
            assert(acks@.map_values(|p: (u64, u64)| (p.0, p.1 as nat)) =~= acks_shown(acks_spec(), tt as nat, k + 1));
            k = k + 1;
        }
        proof {
            reveal_with_fuel(lookup, 7);
        }
        assert(o <= 9);
        let mut window = String::new();
        let mut slots = String::new();
        let mut i: u64 = 1;
        while i <= N
            invariant
                1 <= i <= N + 1,
                tr.sends@ == sends_spec(),
                o <= 9,
                window@ == cells(|q: u64| window_cell(q, o, tt as nat), (i - 1) as nat),
                slots@ == cells(|q: u64| slot_cell(q, j, tt as nat), (i - 1) as nat),
            decreases N + 1 - i,
        {
            if i > 1 {
                push_str(&mut window, " ");
                push_str(&mut slots, " ");
            }
            push_dec(&mut window, i);
            if i < o {
                push_str(&mut window, "✓");
            } else if i < o + WINDOW && i <= N {
                if i == 3 && tt >= 2500 && tt < 8700 {
                    push_str(&mut window, "✕");
                } else if in_flight_exec(&tr.sends, i, tt) {
                    push_str(&mut window, "→");
                } else {
                    push_str(&mut window, "□");
                }
            } else {
                push_str(&mut window, "·");
            }
            push_dec(&mut slots, i);
            let arr: u64 = if i == 1 { 2200 } else if i == 2 { 2900 } else if i == 3 { 10900 } else if i == 4 { 4300 }
                else if i == 5 { 6200 } else if i == 6 { 6900 } else if i == 7 { 14900 } else { 18900 };
            if i <= j {
                push_str(&mut slots, "✓");
            } else if tt >= arr {
                push_str(&mut slots, "◦");
            }
            i = i + 1;
        }
        TcpState { note, base: o, delivered: j, packets, acks, window, slots }
    }
}

fn in_flight_exec(sends: &Vec<(u64, u64, bool)>, sq: u64, t: u64) -> (b: bool)
    requires
        sends@ == sends_spec(),
    ensures
        b == inflight(sends_spec(), sq, t as nat),
{
    let mut k: usize = 0;
    while k < sends.len()
        invariant
            k <= sends@.len(),
            sends@ == sends_spec(),
            forall|q: int| 0 <= q < k ==> !(sends@[q].1 == sq && #[trigger] send_visible(sends@[q], t as nat)),
        decreases sends@.len() - k,
    {
        let (at, s, lost) = sends[k];
        if s == sq && t >= at && t - at < if lost { FLY / 2 + 360 } else { FLY } {
            assert(send_visible(sends@[k as int], t as nat));
            return true;
        }
        k = k + 1;
    }
    false
}

/// Heading above the sender window row.
pub const WINDOW_TITLE: &'static str = "sender window (4 in flight, sliding):";
/// Heading above the receiver slot row.
pub const SLOTS_TITLE: &'static str = "receiver slots (✓ delivered, ◦ buffered):";

/// Labels of what is in flight: each packet by its number, then each ACK
/// as `ack <n>`.
pub open spec fn scene_labels(sends: Seq<(u64, nat, nat)>, acks: Seq<(u64, nat)>) -> Seq<Seq<char>> {
    sends.map_values(|p: (u64, nat, nat)| packet_label(p)) + acks.map_values(|a: (u64, nat)| ack_label(a))
}

/// A packet is labelled by its number.
pub open spec fn packet_label(p: (u64, nat, nat)) -> Seq<char> {
    dec(p.0 as nat)
}

/// An ACK is labelled `ack <n>`.
pub open spec fn ack_label(a: (u64, nat)) -> Seq<char> {
    "ack "@ + dec(a.0 as nat)
}

/// Labels and texts of the TCP scene.
pub struct TcpScene {
    pub labels: Vec<String>,
    /// Window heading, window row, slots heading, slots row.
    pub texts: Vec<String>,
}

pub open spec fn str_views(v: Seq<String>) -> Seq<Seq<char>> {
    v.map_values(|s: String| s@)
}

impl TcpSim {
    /// The packet labels and the texts shown at `t` (looped).
    pub fn scene_at(&self, t: u64) -> (sc: TcpScene)
        ensures
            ({
                let tt = (t as nat) % duration_spec();
                let o = lookup(o_spec(), tt, 6);
                let j = lookup(j_spec(), tt, 6);
                &&& str_views(sc.labels@) == scene_labels(sends_shown(sends_spec(), tt, 9), acks_shown(acks_spec(), tt, 8))
                &&& str_views(sc.texts@) == seq![WINDOW_TITLE@, cells(|i: u64| window_cell(i, o, tt), N as nat),
                    SLOTS_TITLE@, cells(|i: u64| slot_cell(i, j, tt), N as nat)]
            }),
    {
        let st = self.state_at(t);
        let ghost tt = (t as nat) % duration_spec();
        let ghost ps = sends_shown(sends_spec(), tt, 9);
        let ghost acs = acks_shown(acks_spec(), tt, 8);
        assert(ps.len() == st.packets@.len());
        assert(acs.len() == st.acks@.len());
        let mut labels: Vec<String> = Vec::new();
        let mut i: usize = 0;
        while i < st.packets.len()
            invariant
                i <= st.packets@.len(),
                st.packets@.map_values(|p: (u64, u64, u64)| (p.0, p.1 as nat, p.2 as nat)) == ps,
                str_views(labels@) == ps.map_values(|p: (u64, nat, nat)| packet_label(p)).take(i as int),
            decreases st.packets@.len() - i,
        {
            let ghost before = labels@;
            let lab = crate::text::decimal(st.packets[i].0);
            labels.push(lab);
            proof {
                assert(ps[i as int].0 == st.packets@[i as int].0);
                assert(str_views(labels@) =~= str_views(before).push(lab@));
                assert(ps.map_values(|p: (u64, nat, nat)| packet_label(p)).take(i + 1) =~= ps.map_values(|p: (u64, nat, nat)| packet_label(p)).take(i as int).push(packet_label(ps[i as int])));
                assert(str_views(labels@) =~= ps.map_values(|p: (u64, nat, nat)| packet_label(p)).take(i + 1));
            }
            i = i + 1;
        }
        assert(ps.map_values(|p: (u64, nat, nat)| packet_label(p)).take(i as int) =~= ps.map_values(|p: (u64, nat, nat)| packet_label(p)));
        let mut k: usize = 0;
        while k < st.acks.len()
            invariant
                k <= st.acks@.len(),
                st.acks@.map_values(|p: (u64, u64)| (p.0, p.1 as nat)) == acs,
                str_views(labels@) == ps.map_values(|p: (u64, nat, nat)| packet_label(p)) + acs.map_values(|a: (u64, nat)| ack_label(a)).take(k as int),
            decreases st.acks@.len() - k,
        {
            let mut l = String::new();
            push_str(&mut l, "ack ");
            push_dec(&mut l, st.acks[k].0);
            let ghost before = labels@;
            let ghost lv = l@;
            labels.push(l);
            proof {
                assert(acs[k as int].0 == st.acks@[k as int].0);
                assert(lv =~= ack_label(acs[k as int]));
                assert(str_views(labels@) =~= str_views(before).push(lv));
                assert(acs.map_values(|a: (u64, nat)| ack_label(a)).take(k + 1) =~= acs.map_values(|a: (u64, nat)| ack_label(a)).take(k as int).push(ack_label(acs[k as int])));
                assert(str_views(labels@) =~= ps.map_values(|p: (u64, nat, nat)| packet_label(p)) + acs.map_values(|a: (u64, nat)| ack_label(a)).take(k + 1));
            }
            k = k + 1;
        }
        assert(acs.map_values(|a: (u64, nat)| ack_label(a)).take(k as int) =~= acs.map_values(|a: (u64, nat)| ack_label(a)));
        let mut texts: Vec<String> = Vec::new();
        let mut a = String::new();
        push_str(&mut a, WINDOW_TITLE);
        texts.push(a);
        texts.push(st.window);
        let mut b = String::new();
        push_str(&mut b, SLOTS_TITLE);
        texts.push(b);
        texts.push(st.slots);
        assert(str_views(texts@) =~= seq![WINDOW_TITLE@, texts@[1]@, SLOTS_TITLE@, texts@[3]@]);
        TcpScene { labels, texts }
    }
}

} // verus!
