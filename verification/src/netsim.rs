//! Packet-switching sim: packets of several flows routed hop by hop between
//! two clients and two servers, some dropped on the way. This module holds
//! the seeded generator the replay draws from and the bookkeeping of a frame:
//! the tally of delivered and dropped packets, the caption in force, and the
//! hops in flight.
use vstd::prelude::*;
use crate::text::{dec, push_char, push_dec, push_str};

verus! {

/// Virtual time replayed per loop (ms).
pub const SIM_MS: u64 = 90000;
pub const FLOW_EVERY: u64 = 3500;
pub const OPENING: &'static str = "Two clients, two servers, a dozen routers between them, every packet routed hop by hop.";

/// The generator's output for state `a`: mulberry32's mixing of the state.
pub open spec fn mix(a: u32) -> u32 {
    let t1 = a.wrapping_mul((a ^ (a >> 15u32)) | 1u32);
    let t2 = t1.wrapping_add((t1 ^ (t1 >> 7u32)).wrapping_mul(t1 | 61u32) ^ t1);
    t2 ^ (t2 >> 14u32)
}

/// A seeded pseudo-random generator (mulberry32).
pub struct Rng {
    pub state: u32,
}

impl Rng {
    pub fn new(seed: u32) -> (r: Rng)
        ensures
            r.state == seed,
    {
        Rng { state: seed }
    }

    /// Advances the state by the golden-ratio increment and returns its
    /// mix; as a fraction of 2^32 it is the next number in [0, 1).
    pub fn next_u32(&mut self) -> (r: u32)
        ensures
            final(self).state == old(self).state.wrapping_add(1831565813u32),
            r == mix(final(self).state),
    {
        self.state = self.state.wrapping_add(1831565813);
        let t = self.state;
        let t1 = t.wrapping_mul((t ^ (t >> 15u32)) | 1);
        let t2 = t1.wrapping_add((t1 ^ (t1 >> 7u32)).wrapping_mul(t1 | 61) ^ t1);
        t2 ^ (t2 >> 14u32)
    }
}

/// A flow: when it starts, its client (0 A, 1 B) and server (0 for 1, 1
/// for 2), and how many packets it sends.
pub struct Spawn {
    pub t: u64,
    pub src: u64,
    pub dest: u64,
    pub count: u64,
    pub caption: String,
}

/// When a flow stops counting as active: its packets leave 600 ms apart
/// and it is given 8 s more.
pub open spec fn flow_end(t: nat, count: nat) -> nat {
    t + count * 600 + 8000
}

/// Flows among `v` still active at `t`.
pub open spec fn active(v: Seq<(nat, nat, nat, nat)>, t: nat) -> nat
    decreases v.len(),
{
    if v.len() == 0 { 0 } else { active(v.drop_last(), t) + if flow_end(v.last().0, v.last().3) > t { 1nat } else { 0nat } }
}

/// The draw of the generator after `s`, as a coin: its top bit.
pub open spec fn coin(s: u32) -> nat {
    (mix(s.wrapping_add(1831565813u32)) >> 31u32) as nat
}

pub open spec fn step(s: u32) -> u32 {
    s.wrapping_add(1831565813u32)
}

/// Flows from step `k` on (every `FLOW_EVERY` ms until `SIM_MS`): a new
/// flow starts whenever fewer than two are active, drawing its client, its
/// server and its extra packet from the generator in that order. Returns
/// the flows (t, client, server, count) and the generator's state.
pub open spec fn flows_from(k: nat, s: u32, acc: Seq<(nat, nat, nat, nat)>) -> (Seq<(nat, nat, nat, nat)>, u32)
    decreases 26 - k,
{
    let t = (k * FLOW_EVERY) as nat;
    if t >= SIM_MS {
        (acc, s)
    } else if active(acc, t) < 2 {
        let src = coin(s);
        let dest = coin(step(s));
        let extra = coin(step(step(s)));
        flows_from(k + 1, step(step(step(s))), acc.push((t, src, dest, (3 + extra) as nat)))
    } else {
        flows_from(k + 1, s, acc)
    }
}

/// Caption announcing a flow.
pub open spec fn flow_caption(src: nat, dest: nat, count: nat) -> Seq<char> {
    "Client "@ + seq![if src == 0 { 'A' } else { 'B' }] + " ➔ Server "@ + seq![if dest == 0 { '1' } else { '2' }]
        + ", sending "@ + dec(count) + " packets. Each routes independently."@
}

pub open spec fn spawn_view(f: Spawn) -> (nat, nat, nat, nat) {
    (f.t as nat, f.src as nat, f.dest as nat, f.count as nat)
}

fn coin_exec(rng: &mut Rng) -> (c: u64)
    ensures
        final(rng).state == step(old(rng).state),
        c == coin(old(rng).state),
        c <= 1,
{
    let r = rng.next_u32();
    assert(r >> 31u32 <= 1) by (bit_vector);
    (r >> 31u32) as u64
}

/// The flows of one loop, drawn from `rng`, which is left where the
/// packets' walks continue drawing.
pub fn flows(rng: &mut Rng) -> (v: Vec<Spawn>)
    ensures
        v@.map_values(|f: Spawn| spawn_view(f)) == flows_from(0, old(rng).state, seq![]).0,
        final(rng).state == flows_from(0, old(rng).state, seq![]).1,
        forall|i: int| 0 <= i < v@.len() ==> (#[trigger] v@[i]).caption@ == flow_caption(v@[i].src as nat, v@[i].dest as nat, v@[i].count as nat),
{
    let mut v: Vec<Spawn> = Vec::new();
    let mut t: u64 = 0;
    let ghost mut k: nat = 0;
    assert(v@.map_values(|f: Spawn| spawn_view(f)) =~= Seq::<(nat, nat, nat, nat)>::empty());
    while t < SIM_MS
        invariant
            t == k * FLOW_EVERY,
            t <= SIM_MS + FLOW_EVERY,
            flows_from(0, old(rng).state, seq![]) == flows_from(k, rng.state, v@.map_values(|f: Spawn| spawn_view(f))),
            forall|i: int| 0 <= i < v@.len() ==> #[trigger] v@[i].count <= 4 && v@[i].t <= SIM_MS,
            forall|i: int| 0 <= i < v@.len() ==> (#[trigger] v@[i]).caption@ == flow_caption(v@[i].src as nat, v@[i].dest as nat, v@[i].count as nat),
        decreases SIM_MS + FLOW_EVERY - t,
    {
        let ghost acc = v@.map_values(|f: Spawn| spawn_view(f));
        let mut n: u64 = 0;
        let mut i: usize = 0;
        while i < v.len()
            invariant
                i <= v@.len(),
                n <= i,
                acc == v@.map_values(|f: Spawn| spawn_view(f)),
                n == active(acc.take(i as int), t as nat),
                forall|q: int| 0 <= q < v@.len() ==> #[trigger] v@[q].count <= 4 && v@[q].t <= SIM_MS,
            decreases v@.len() - i,
        {
            assert(acc.take(i + 1).drop_last() =~= acc.take(i as int));
            if v[i].t + v[i].count * 600 + 8000 > t {
                n = n + 1;
            }
            i = i + 1;
        }
        assert(acc.take(v@.len() as int) =~= acc);
        if n < 2 {
            let src = coin_exec(rng);
            let dest = coin_exec(rng);
            let extra = coin_exec(rng);
            let count = 3 + extra;
            let mut caption = String::new();
            push_str(&mut caption, "Client ");
            push_char(&mut caption, if src == 0 { 'A' } else { 'B' });
            push_str(&mut caption, " ➔ Server ");
            push_char(&mut caption, if dest == 0 { '1' } else { '2' });
            push_str(&mut caption, ", sending ");
            push_dec(&mut caption, count);
            push_str(&mut caption, " packets. Each routes independently.");
            v.push(Spawn { t, src, dest, count, caption });
            assert(v@.map_values(|f: Spawn| spawn_view(f)) =~= acc.push((t as nat, src as nat, dest as nat, count as nat)));
        }
        t = t + FLOW_EVERY;
        proof {
            k = k + 1;
        }
    }
    v
}

/// Something that happens in the replay at a given time.
pub enum NetEvent {
    Delivered,
    Dropped,
    Caption(String),
}

/// Counts and caption after the first `n` events, stopping at the first
/// event later than `tt`: (delivered, dropped, caption).
pub open spec fn tally_from(events: Seq<(u64, NetEvent)>, tt: nat, k: int, acc: (nat, nat, Seq<char>)) -> (nat, nat, Seq<char>)
    decreases events.len() - k,
{
    if k < 0 || k >= events.len() || events[k].0 > tt {
        acc
    } else {
        let next = match events[k].1 {
            NetEvent::Delivered => (acc.0 + 1, acc.1, acc.2),
            NetEvent::Dropped => (acc.0, acc.1 + 1, acc.2),
            NetEvent::Caption(s) => (acc.0, acc.1, s@),
        };
        tally_from(events, tt, k + 1, next)
    }
}

/// The tally shown at `tt`.
pub struct Tally {
    pub delivered: u64,
    pub dropped: u64,
    pub caption: String,
}

/// Replays the time-ordered events up to `tt`.
pub fn tally(events: &Vec<(u64, NetEvent)>, tt: u64) -> (r: Tally)
    ensures
        (r.delivered as nat, r.dropped as nat, r.caption@) == tally_from(events@, tt as nat, 0, (0, 0, OPENING@)),
{
    let mut delivered: u64 = 0;
    let mut dropped: u64 = 0;
    let mut caption = String::new();
    caption.append(OPENING);
    let mut k: usize = 0;
    assert(caption@ =~= OPENING@);
    while k < events.len() && events[k].0 <= tt
        invariant
            k <= events@.len(),
            delivered <= k,
            dropped <= k,
            tally_from(events@, tt as nat, 0, (0, 0, OPENING@))
                == tally_from(events@, tt as nat, k as int, (delivered as nat, dropped as nat, caption@)),
        decreases events@.len() - k,
    {
        match &events[k].1 {
            NetEvent::Delivered => {
                delivered = delivered + 1;
            },
            NetEvent::Dropped => {
                dropped = dropped + 1;
            },
            NetEvent::Caption(s) => {
                caption = String::new();
                caption.append(s.as_str());
                assert(caption@ =~= s@);
            },
        }
        k = k + 1;
    }
    Tally { delivered, dropped, caption }
}

/// Hops in flight at `tt` among the first `n`: (hop index, elapsed).
pub open spec fn flying_upto(hops: Seq<(u64, u64)>, tt: nat, n: int) -> Seq<(int, nat)>
    decreases n,
{
    if n <= 0 {
        seq![]
    } else if hops[n - 1].0 <= tt < hops[n - 1].0 + hops[n - 1].1 {
        flying_upto(hops, tt, n - 1).push((n - 1, (tt - hops[n - 1].0) as nat))
    } else {
        flying_upto(hops, tt, n - 1)
    }
}

/// Hops (start, duration) in flight at `tt`, with the time since each began.
pub fn in_flight(hops: &Vec<(u64, u64)>, tt: u64) -> (r: Vec<(usize, u64)>)
    ensures
        r@.map_values(|p: (usize, u64)| (p.0 as int, p.1 as nat)) == flying_upto(hops@, tt as nat, hops@.len() as int),
{
    let mut r: Vec<(usize, u64)> = Vec::new();
    let mut k: usize = 0;
    while k < hops.len()
        invariant
            k <= hops@.len(),
            r@.map_values(|p: (usize, u64)| (p.0 as int, p.1 as nat)) == flying_upto(hops@, tt as nat, k as int),
        decreases hops@.len() - k,
    {
        let (start, dur) = hops[k];
        if start <= tt && (tt - start) < dur {
            r.push((k, tt - start));
        }
        assert(r@.map_values(|p: (usize, u64)| (p.0 as int, p.1 as nat)) =~= flying_upto(hops@, tt as nat, k + 1));
        k = k + 1;
    }
    r
}

/// The packet-switching sim as a looping animation.
pub struct NetSim;

impl NetSim {
    pub fn duration(&self) -> (d: u64)
        ensures
            d == SIM_MS,
    {
        SIM_MS
    }
}

} // verus!
