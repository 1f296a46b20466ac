//! ARP sim: a host needs the MAC address behind an IP, broadcasts "who
//! has?", only the owner replies, and the sender caches the answer; the
//! second time the same pair talks the cache answers at once.
use vstd::prelude::*;
use crate::schedule::{caption_ms, caption_time, max_nat};
use crate::text::push_str;

verus! {

pub const PAUSE: u64 = 1300;

pub open spec fn host_id(i: int) -> Seq<char> {
    if i == 0 { "host 1"@ } else if i == 1 { "host 2"@ } else if i == 2 { "host 3"@ } else { "gateway"@ }
}

pub open spec fn host_ip(i: int) -> Seq<char> {
    if i == 0 { "203.0.113.10"@ } else if i == 1 { "203.0.113.20"@ } else if i == 2 { "203.0.113.30"@ } else { "203.0.113.1"@ }
}

pub open spec fn host_mac(i: int) -> Seq<char> {
    if i == 0 { "1A:2B:3C"@ } else if i == 1 { "4D:5E:6F"@ } else if i == 2 { "7A:8B:9C"@ } else { "AA:BB:CC"@ }
}

/// Host `i` of the segment: name, IP address and MAC address.
pub fn host(i: usize) -> (h: (&'static str, &'static str, &'static str))
    requires
        i < 4,
    ensures
        h.0@ == host_id(i as int),
        h.1@ == host_ip(i as int),
        h.2@ == host_mac(i as int),
{
    if i == 0 {
        ("host 1", "203.0.113.10", "1A:2B:3C")
    } else if i == 1 {
        ("host 2", "203.0.113.20", "4D:5E:6F")
    } else if i == 2 {
        ("host 3", "203.0.113.30", "7A:8B:9C")
    } else {
        ("gateway", "203.0.113.1", "AA:BB:CC")
    }
}

/// The four episodes as (sender, target) host indices: host 1 asks for
/// host 3 twice, then host 2 asks for the gateway twice.
pub open spec fn episode_pair(e: int) -> (int, int) {
    if e <= 1 { (0, 2) } else { (1, 3) }
}

fn pair_exec(e: usize) -> (p: (usize, usize))
    requires
        e < 4,
    ensures
        p.0 as int == episode_pair(e as int).0,
        p.1 as int == episode_pair(e as int).1,
{
    if e <= 1 { (0, 2) } else { (1, 3) }
}

/// Caption timing of this sim: 28 ms per byte, clamped to 950..4200 ms.
pub open spec fn cap(s: Seq<char>) -> nat {
    caption_time(s, 28, 950, 4200)
}

/// Names of the hosts other than `s` and `d`, in order, joined by " and ".
pub open spec fn others_upto(s: int, d: int, n: int) -> Seq<char>
    decreases n,
{
    if n <= 0 {
        seq![]
    } else if n - 1 == s || n - 1 == d {
        others_upto(s, d, n - 1)
    } else if others_upto(s, d, n - 1).len() == 0 {
        host_id(n - 1)
    } else {
        others_upto(s, d, n - 1) + " and "@ + host_id(n - 1)
    }
}

pub open spec fn others(s: int, d: int) -> Seq<char> {
    others_upto(s, d, 4)
}

/// The broadcast question.
pub open spec fn note_ask(s: int, d: int) -> Seq<char> {
    host_id(s) + " needs a MAC for "@ + host_ip(d) + ". It broadcasts: \"Who has "@ + host_ip(d) + "? Reply to "@
        + host_ip(s) + ".\""@
}

/// Everyone hears it; only the owner answers.
pub open spec fn note_hear(s: int, d: int) -> Seq<char> {
    "Every host on the segment hears the broadcast. "@ + others(s, d) + " check their own IP, it isn't "@ + host_ip(d)
        + ", and stay silent. Only "@ + host_id(d) + " recognizes its own address."@
}

/// The unicast reply.
pub open spec fn note_reply(s: int, d: int) -> Seq<char> {
    host_id(d) + " replies directly to "@ + host_id(s) + ", unicast, not broadcast: \""@ + host_ip(d) + " is at "@
        + host_mac(d) + ".\""@
}

/// The sender caches the answer.
pub open spec fn note_cache(s: int, d: int) -> Seq<char> {
    host_id(s) + " caches "@ + host_ip(d) + " → "@ + host_mac(d) + " in its ARP table. Every frame to "@ + host_ip(d)
        + " for the next few minutes skips this whole exchange."@
}

/// A repeat lookup answered from the cache.
pub open spec fn note_hit(s: int, d: int) -> Seq<char> {
    host_id(s) + " already has "@ + host_ip(d) + " → "@ + host_mac(d)
        + " in its ARP cache. No broadcast needed, it addresses the frame directly."@
}

/// Episode `e` asks for a pair that no earlier episode asked for, so the
/// sender's cache has no entry yet.
pub open spec fn is_miss(e: int) -> bool {
    forall|j: int| 0 <= j < e ==> #[trigger] episode_pair(j) != episode_pair(e)
}

/// One episode's timing: start in the loop, whether it is a cache miss, and
/// its stage boundaries relative to the start (reply wait, reply, caching).
pub struct Ep {
    pub start: u64,
    pub miss: bool,
    pub k: u64,
    pub a: u64,
    pub j: u64,
}

/// The loop: its episodes and total length.
pub struct Schedule {
    pub eps: Vec<Ep>,
    pub duration: u64,
}

pub open spec fn miss_k(s: int, d: int) -> nat {
    max_nat(cap(note_ask(s, d)), 880)
}

pub open spec fn miss_a(s: int, d: int) -> nat {
    miss_k(s, d) + cap(note_hear(s, d))
}

pub open spec fn miss_j(s: int, d: int) -> nat {
    miss_a(s, d) + max_nat(cap(note_reply(s, d)), 850)
}

/// Length of episode `e` (ms).
pub open spec fn episode_len(e: int) -> nat {
    let (s, d) = episode_pair(e);
    if is_miss(e) {
        miss_j(s, d) + cap(note_cache(s, d)) + PAUSE as nat
    } else {
        max_nat(cap(note_hit(s, d)), 1900) + PAUSE as nat
    }
}

pub open spec fn episode_start(e: int) -> nat
    decreases e,
{
    if e <= 0 { 0 } else { episode_start(e - 1) + episode_len(e - 1) }
}

pub open spec fn ep_ok(ep: Ep, e: int) -> bool {
    let (s, d) = episode_pair(e);
    &&& ep.start == episode_start(e)
    &&& ep.miss == is_miss(e)
    &&& ep.k == (if is_miss(e) { miss_k(s, d) } else { 0 })
    &&& ep.a == (if is_miss(e) { miss_a(s, d) } else { 0 })
    &&& ep.j == (if is_miss(e) { miss_j(s, d) } else { 0 })
}

fn others_exec(s: usize, d: usize) -> (o: String)
    requires
        s < 4,
        d < 4,
    ensures
        o@ == others(s as int, d as int),
{
    let mut o = String::new();
    let mut i: usize = 0;
    while i < 4
        invariant
            i <= 4,
            s < 4 && d < 4,
            o@ == others_upto(s as int, d as int, i as int),
        decreases 4 - i,
    {
        if i != s && i != d {
            let (id, _, _) = host(i);
            if !o.as_str().is_empty() {
                push_str(&mut o, " and ");
            }
            push_str(&mut o, id);
        }
        i = i + 1;
    }
    o
}

fn note_exec(which: u8, s: usize, d: usize) -> (n: String)
    requires
        s < 4,
        d < 4,
        which < 5,
    ensures
        which == 0 ==> n@ == note_ask(s as int, d as int),
        which == 1 ==> n@ == note_hear(s as int, d as int),
        which == 2 ==> n@ == note_reply(s as int, d as int),
        which == 3 ==> n@ == note_cache(s as int, d as int),
        which == 4 ==> n@ == note_hit(s as int, d as int),
{
    let (sid, sip, _smac) = host(s);
    let (did, dip, dmac) = host(d);
    let mut n = String::new();
    if which == 0 {
        push_str(&mut n, sid);
        push_str(&mut n, " needs a MAC for ");
        push_str(&mut n, dip);
        push_str(&mut n, ". It broadcasts: \"Who has ");
        push_str(&mut n, dip);
        push_str(&mut n, "? Reply to ");
        push_str(&mut n, sip);
        push_str(&mut n, ".\"");
        assert(n@ =~= note_ask(s as int, d as int));
    } else if which == 1 {
        let o = others_exec(s, d);
        push_str(&mut n, "Every host on the segment hears the broadcast. ");
        push_str(&mut n, o.as_str());
        push_str(&mut n, " check their own IP, it isn't ");
        push_str(&mut n, dip);
        push_str(&mut n, ", and stay silent. Only ");
        push_str(&mut n, did);
        push_str(&mut n, " recognizes its own address.");
        assert(n@ =~= note_hear(s as int, d as int));
    } else if which == 2 {
        push_str(&mut n, did);
        push_str(&mut n, " replies directly to ");
        push_str(&mut n, sid);
        push_str(&mut n, ", unicast, not broadcast: \"");
        push_str(&mut n, dip);
        push_str(&mut n, " is at ");
        push_str(&mut n, dmac);
        push_str(&mut n, ".\"");
        assert(n@ =~= note_reply(s as int, d as int));
    } else if which == 3 {
        push_str(&mut n, sid);
        push_str(&mut n, " caches ");
        push_str(&mut n, dip);
        push_str(&mut n, " → ");
        push_str(&mut n, dmac);
        push_str(&mut n, " in its ARP table. Every frame to ");
        push_str(&mut n, dip);
        push_str(&mut n, " for the next few minutes skips this whole exchange.");
        assert(n@ =~= note_cache(s as int, d as int));
    } else {
        push_str(&mut n, sid);
        push_str(&mut n, " already has ");
        push_str(&mut n, dip);
        push_str(&mut n, " → ");
        push_str(&mut n, dmac);
        push_str(&mut n, " in its ARP cache. No broadcast needed, it addresses the frame directly.");
        assert(n@ =~= note_hit(s as int, d as int));
    }
    n
}

fn cap_exec(s: &String) -> (r: u64)
    ensures
        r == cap(s@),
        r <= 4200,
{
    caption_ms(s.as_str(), 28, 950, 4200)
}

/// The loop's schedule. The sender's cache starts empty each loop and learns
/// the target of every miss, so an episode misses exactly when its pair has
/// not come up before.
pub fn schedule() -> (sch: Schedule)
    ensures
        sch.eps@.len() == 4,
        forall|e: int| 0 <= e < 4 ==> #[trigger] ep_ok(sch.eps@[e], e),
        sch.duration == episode_start(4),
{
    proof { lemma_misses(); }
    let mut eps: Vec<Ep> = Vec::new();
    let mut learned: Vec<(usize, usize)> = Vec::new();
    let mut t: u64 = 0;
    let mut e: usize = 0;
    while e < 4
        invariant
            e <= 4,
            eps@.len() == e,
            t == episode_start(e as int),
            t <= 20000 * e,
            forall|q: int| 0 <= q < e ==> #[trigger] ep_ok(eps@[q], q),
            learned@ == learned_before(e as int),
            is_miss(0) && !is_miss(1) && is_miss(2) && !is_miss(3),
        decreases 4 - e,
    {
        let (s, d) = pair_exec(e);
        let mut known = false;
        let mut m: usize = 0;
        while m < learned.len()
            invariant
                m <= learned@.len(),
                known == exists|q: int| 0 <= q < m && learned@[q] == (s, d),
            decreases learned@.len() - m,
        {
            if learned[m].0 == s && learned[m].1 == d {
                known = true;
            }
            m = m + 1;
        }
        proof {
            if e == 1 || e == 3 {
                assert(learned@[(e / 2) as int] == (s, d));
            }
            if e == 2 {
                assert(learned@.len() == 1 && learned@[0] != (s, d));
            }
            assert(known == !is_miss(e as int));
        }
        let miss = !known;
        if miss {
            let ask = note_exec(0, s, d);
            let hear = note_exec(1, s, d);
            let reply = note_exec(2, s, d);
            let cache = note_exec(3, s, d);
            let c0 = cap_exec(&ask);
            let k = if c0 < 880 { 880 } else { c0 };
            let a = k + cap_exec(&hear);
            let c2 = cap_exec(&reply);
            let j = a + if c2 < 850 { 850 } else { c2 };
            let end = j + cap_exec(&cache) + PAUSE;
            eps.push(Ep { start: t, miss: true, k, a, j });
            learned.push((s, d));
            t = t + end;
        } else {
            let hit = note_exec(4, s, d);
            let c = cap_exec(&hit);
            let end = (if c < 1900 { 1900 } else { c }) + PAUSE;
            eps.push(Ep { start: t, miss: false, k: 0, a: 0, j: 0 });
            t = t + end;
        }
        proof {
            assert(ep_ok(eps@[e as int], e as int));
            assert(learned@ =~= learned_before(e + 1));
        }
        e = e + 1;
    }
    Schedule { eps, duration: t }
}

/// Pairs the sender caches have learned before episode `e`.
pub open spec fn learned_before(e: int) -> Seq<(usize, usize)> {
    if e <= 0 { seq![] } else if e <= 2 { seq![(0usize, 2usize)] } else { seq![(0usize, 2usize), (1usize, 3usize)] }
}

/// Episodes 1 and 3 repeat the pair of the episode before them.
pub proof fn lemma_misses()
    ensures
        is_miss(0),
        !is_miss(1),
        is_miss(2),
        !is_miss(3),
{
    assert(episode_pair(0) == episode_pair(1));
    assert(episode_pair(2) == episode_pair(3));
    assert forall|j: int| 0 <= j < 2 implies #[trigger] episode_pair(j) != episode_pair(2) by {}
}

/// The sender's cache as shown in the badge: empty, or the learned entry.
pub open spec fn badge_spec(s: int, d: int, learned: bool) -> Seq<char> {
    if learned {
        host_id(s) + "'s ARP cache: "@ + host_ip(d) + " → "@ + host_mac(d)
    } else {
        host_id(s) + "'s ARP cache: (empty)"@
    }
}

/// What the ARP sim shows at one moment: the episode, the time into it, the
/// caption and the cache badge.
pub struct ArpState {
    pub episode: usize,
    pub dt: u64,
    pub note: String,
    pub badge: String,
}

/// The ARP sim as a looping animation.
pub struct Arp;

impl Arp {
    /// Loop length (ms).
    pub fn duration(&self) -> (d: u64)
        ensures
            d == episode_start(4),
    {
        schedule().duration
    }

    /// State at `t` (looped): the last episode started, the caption of its
    /// stage, and whether the sender has the entry cached yet.
    pub fn state_at(&self, t: u64) -> (st: ArpState)
        ensures
            ({
                let tt = (t as nat) % episode_start(4);
                let e = st.episode as int;
                let (s, d) = episode_pair(e);
                let dt = (tt - episode_start(e)) as nat;
                &&& 0 <= e < 4
                &&& episode_start(e) <= tt
                &&& (e < 3 ==> tt < episode_start(e + 1))
                &&& st.dt == dt
                &&& st.note@ == (if !is_miss(e) { note_hit(s, d) } else if dt < miss_k(s, d) { note_ask(s, d) }
                        else if dt < miss_a(s, d) { note_hear(s, d) } else if dt < miss_j(s, d) { note_reply(s, d) }
                        else { note_cache(s, d) })
                &&& st.badge@ == badge_spec(s, d, !is_miss(e) || dt >= miss_j(s, d))
            }),
    {
        let sch = schedule();
        proof {
            assert(ep_ok(sch.eps@[0], 0));
            lemma_start_monotone(1, 4);
        }
        let tt = t % sch.duration;
        let mut starts: Vec<u64> = Vec::new();
        let mut k: usize = 0;
        while k < 4
            invariant
                k <= 4,
                sch.eps@.len() == 4,
                starts@.len() == k,
                forall|j: int| 0 <= j < k ==> #[trigger] starts@[j] == sch.eps@[j].start,
            decreases 4 - k,
        {
            starts.push(sch.eps[k].start);
            k = k + 1;
        }
        let e = crate::schedule::stage_index(&starts, tt);
        let ep = &sch.eps[e];
        proof {
            assert(ep_ok(sch.eps@[e as int], e as int));
            assert(starts@[0] == 0) by { assert(ep_ok(sch.eps@[0], 0)); }
            if e < 3 {
                assert(ep_ok(sch.eps@[e + 1], e + 1));
                assert(starts@[e + 1] > tt);
            }
        }
        let dt = tt - ep.start;
        let (s, d) = pair_exec(e);
        let (which, learned): (u8, bool) = if !ep.miss {
            (4, true)
        } else if dt < ep.k {
            (0, false)
        } else if dt < ep.a {
            (1, false)
        } else if dt < ep.j {
            (2, false)
        } else {
            (3, true)
        };
        let note = note_exec(which, s, d);
        let (sid, _, _) = host(s);
        let (_, dip, dmac) = host(d);
        let mut badge = String::new();
        push_str(&mut badge, sid);
        if learned {
            push_str(&mut badge, "'s ARP cache: ");
            push_str(&mut badge, dip);
            push_str(&mut badge, " → ");
            push_str(&mut badge, dmac);
        } else {
            push_str(&mut badge, "'s ARP cache: (empty)");
        }
        assert(badge@ =~= badge_spec(s as int, d as int, learned));
        ArpState { episode: e, dt, note, badge }
    }
}

proof fn lemma_start_monotone(p: int, q: int)
    requires
        0 <= p <= q,
    ensures
        episode_start(p) <= episode_start(q),
    decreases q - p,
{
    if p < q {
        lemma_start_monotone(p, q - 1);
    }
}

} // verus!
