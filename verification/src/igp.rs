//! Interior-gateway sim: OSPF and RIP reacting to a link drop. A shared
//! prologue walks a packet R1, R2, R3 to net N and drops R3's link; OSPF then
//! converges with two floods while RIP loops, bounces a packet to TTL 0 and
//! counts to infinity. The two stories play one after the other: OSPF
//! right after the drop, RIP once OSPF has converged and paused.
use vstd::prelude::*;
use crate::rank::{is_perm, lemma_stable_order_unique, listed, order_by_key, sorted_order, stably_sorted};
use crate::schedule::{caption_ms, caption_time};
use crate::text::{dec, push_dec, push_str};

verus! {

pub const HOP_MS: u64 = 760;
pub const FLASH_MS: u64 = 1200;
pub const PAUSE: u64 = 2600;
/// Hop count meaning "unreachable".
pub const UNREACHABLE: u8 = 255;

pub const CAP_STEADY: &'static str = "Steady state, every router already knows its hop count to net N.";
pub const CAP_FWD1: &'static str = "R1 forwards to R2, the only next hop R1 knows about.";
pub const CAP_FWD2: &'static str = "R2 does the same with its own table. It has no memory of where the packet came from, and no idea where it's ultimately headed.";
pub const CAP_FWD3: &'static str = "Delivered. Three independent lookups, no router ever saw the whole path.";
pub const CAP_DROP: &'static str = "R3's link to net N drops. R3 knows immediately.";
pub const CAP_MAP: &'static str = "R2 already has a full map of the network, it just recomputes without that link.";
pub const CAP_CONV_OSPF: &'static str = "Converged, two floods, every router certain.";
pub const CAP_LOOP3: &'static str = "R2's routine update still says 2, stale, from before the break. R3 trusts it: 2 + 1 = 3. A loop has formed: R3 now routes toward R2, and R2 still routes toward R3.";
pub const CAP_LOOP_PKT: &'static str = "A real packet for net N arrives at R2 right now and gets caught in that loop.";
pub const CAP_TTL0: &'static str = "TTL hit zero, discarded. The loop won't clear until the hop count climbs high enough to be declared infinite.";
pub const CAP_4: &'static str = "R2 hears R3's new number and adds one: 4.";
pub const CAP_5: &'static str = "R3 adds one again: 5, and this keeps going, every round, up toward 16.";
pub const CAP_16: &'static str = "Eventually the count reaches 16, RIP's definition of infinity. Only then do R2 and R3 agree net N is truly gone.";
pub const CAP_CONV_RIP: &'static str = "The news reaches R1 the same way every number here traveled, one hop at a time.";

/// Caption timing: 32 ms per byte, clamped to 1600..3600 ms.
pub open spec fn cap(s: &'static str) -> nat {
    caption_time(s@, 32, 1600, 3600)
}

fn cap_exec(s: &'static str) -> (r: u64)
    ensures
        r == cap(s),
        r <= 3600,
{
    caption_ms(s, 32, 1600, 3600)
}

/// One shot of the story, from `t` until the next shot. Positions are
/// 0 = R1, 1 = R2, 2 = R3, 3 = net N; hop counts are R1's, R2's and R3's.
#[derive(Clone, Copy)]
pub struct Shot {
    pub t: u64,
    pub note: &'static str,
    /// A message departing at `t`: (from, to, kind).
    pub fly: Option<(usize, usize, &'static str)>,
    pub d1: u8,
    pub d2: u8,
    pub d3: u8,
    /// The looping packet: position and remaining TTL.
    pub ttl_pkt: Option<(usize, u8)>,
    pub ospf: bool,
}

pub open spec fn sh(t: nat, note: &'static str, fly: Option<(usize, usize, &'static str)>, d1: u8, d2: u8, d3: u8,
    ttl_pkt: Option<(usize, u8)>, ospf: bool) -> Shot {
    Shot { t: t as u64, note, fly, d1, d2, d3, ttl_pkt, ospf }
}

/// Prologue shot times: steady state, three hops each with a departure and
/// an arrival, then the link drop.
pub open spec fn pro_t(i: int) -> nat
    decreases i,
{
    if i <= 0 { 0 }
    else if i == 1 { cap(CAP_STEADY) }
    else if i == 2 || i == 4 || i == 6 { (pro_t(i - 1) + HOP_MS) as nat }
    else if i == 3 { pro_t(2) + cap(CAP_FWD1) }
    else if i == 5 { pro_t(4) + cap(CAP_FWD2) }
    else { pro_t(6) + cap(CAP_FWD3) }
}

/// End of the prologue: both stories start here.
pub open spec fn t_drop_end() -> nat {
    (pro_t(7) + cap(CAP_DROP) + FLASH_MS) as nat
}

/// The RIP story starts once the OSPF story's last caption and the pause
/// are over.
pub open spec fn t_rip_start() -> nat {
    (t_drop_end() + HOP_MS + cap(CAP_MAP) + HOP_MS + cap(CAP_CONV_OSPF) + PAUSE) as nat
}

/// RIP shot times, from the end of the OSPF story.
pub open spec fn rip_t(i: int) -> nat
    decreases i,
{
    if i <= 0 { t_rip_start() }
    else if i == 1 || i == 9 || i == 11 || i == 13 || i == 15 { (rip_t(i - 1) + HOP_MS) as nat }
    else if i == 2 { rip_t(1) + cap(CAP_LOOP3) }
    else if 3 <= i <= 6 { rip_t(i - 1) + 500 }
    else if i == 7 { rip_t(6) + 800 }
    else if i == 8 { rip_t(7) + cap(CAP_TTL0) }
    else if i == 10 { rip_t(9) + cap(CAP_4) }
    else if i == 12 { rip_t(11) + cap(CAP_5) }
    else { rip_t(13) + cap(CAP_16) }
}

/// Every shot in the order the story lists them: prologue, OSPF, RIP.
#[verifier::opaque]
pub open spec fn shots_spec() -> Seq<Shot> {
    let n = UNREACHABLE;
    let t = t_drop_end();
    seq![
        sh(pro_t(0), CAP_STEADY, None, 3, 2, 1, None, true),
        sh(pro_t(1), CAP_FWD1, Some((0usize, 1usize, "data")), 3, 2, 1, None, true),
        sh(pro_t(2), CAP_FWD1, None, 3, 2, 1, None, true),
        sh(pro_t(3), CAP_FWD2, Some((1usize, 2usize, "data")), 3, 2, 1, None, true),
        sh(pro_t(4), CAP_FWD2, None, 3, 2, 1, None, true),
        sh(pro_t(5), CAP_FWD3, Some((2usize, 3usize, "data")), 3, 2, 1, None, true),
        sh(pro_t(6), CAP_FWD3, None, 3, 2, 1, None, true),
        sh(pro_t(7), CAP_DROP, None, 3, 2, n, None, true),
        sh(t, CAP_MAP, Some((2usize, 1usize, "flood")), 3, 2, n, None, true),
        sh((t + HOP_MS) as nat, CAP_MAP, None, 3, n, n, None, true),
        sh((t + HOP_MS + cap(CAP_MAP)) as nat, CAP_CONV_OSPF, Some((1usize, 0usize, "flood")), 3, n, n, None, true),
        sh((t + HOP_MS + cap(CAP_MAP) + HOP_MS) as nat, CAP_CONV_OSPF, None, n, n, n, None, true),
        sh(rip_t(0), CAP_LOOP3, Some((1usize, 2usize, "vector")), 3, 2, n, None, false),
        sh(rip_t(1), CAP_LOOP3, None, 3, 2, 3, None, false),
        sh(rip_t(2), CAP_LOOP_PKT, None, 3, 2, 3, Some((1usize, 4u8)), false),
        sh(rip_t(3), CAP_LOOP_PKT, None, 3, 2, 3, Some((2usize, 3u8)), false),
        sh(rip_t(4), CAP_LOOP_PKT, None, 3, 2, 3, Some((1usize, 2u8)), false),
        sh(rip_t(5), CAP_LOOP_PKT, None, 3, 2, 3, Some((2usize, 1u8)), false),
        sh(rip_t(6), CAP_LOOP_PKT, None, 3, 2, 3, Some((1usize, 0u8)), false),
        sh(rip_t(7), CAP_TTL0, None, 3, 2, 3, None, false),
        sh(rip_t(8), CAP_4, Some((2usize, 1usize, "vector")), 3, 4, 3, None, false),
        sh(rip_t(9), CAP_4, None, 3, 4, 3, None, false),
        sh(rip_t(10), CAP_5, Some((1usize, 2usize, "vector")), 3, 4, 5, None, false),
        sh(rip_t(11), CAP_5, None, 3, 4, 5, None, false),
        sh(rip_t(12), CAP_16, Some((2usize, 1usize, "vector")), 3, 5, 5, None, false),
        sh(rip_t(13), CAP_16, None, 3, n, n, None, false),
        sh(rip_t(14), CAP_CONV_RIP, Some((1usize, 0usize, "vector")), 3, n, n, None, false),
        sh(rip_t(15), CAP_CONV_RIP, None, n, n, n, None, false),
    ]
}

pub open spec fn shot_times(v: Seq<Shot>) -> Seq<u64> {
    v.map_values(|s: Shot| s.t)
}

/// The shots in time order (equal times keep story order).
pub open spec fn merged() -> Seq<Shot> {
    let order = sorted_order(shot_times(shots_spec()));
    Seq::new(order.len(), |i: int| shots_spec()[order[i] as int])
}

/// Loop length: the last RIP shot, its caption and the pause.
pub open spec fn duration_spec() -> nat {
    (rip_t(15) + cap(CAP_CONV_RIP) + PAUSE) as nat
}

fn build() -> (v: Vec<Shot>)
    ensures
        v@ == shots_spec(),
        v@.len() == 28,
        rip_t(15) <= 100000,
{
    let n = UNREACHABLE;
    let mut d: u64 = 0;
    let mut v: Vec<Shot> = Vec::new();
    proof {
        reveal_with_fuel(pro_t, 8);
        reveal_with_fuel(rip_t, 16);
    }
    v.push(Shot { t: 0, note: CAP_STEADY, fly: None, d1: 3, d2: 2, d3: 1, ttl_pkt: None, ospf: true });
    d = d + cap_exec(CAP_STEADY);
    v.push(Shot { t: d, note: CAP_FWD1, fly: Some((0, 1, "data")), d1: 3, d2: 2, d3: 1, ttl_pkt: None, ospf: true });
    d = d + HOP_MS;
    v.push(Shot { t: d, note: CAP_FWD1, fly: None, d1: 3, d2: 2, d3: 1, ttl_pkt: None, ospf: true });
    d = d + cap_exec(CAP_FWD1);
    v.push(Shot { t: d, note: CAP_FWD2, fly: Some((1, 2, "data")), d1: 3, d2: 2, d3: 1, ttl_pkt: None, ospf: true });
    d = d + HOP_MS;
    v.push(Shot { t: d, note: CAP_FWD2, fly: None, d1: 3, d2: 2, d3: 1, ttl_pkt: None, ospf: true });
    d = d + cap_exec(CAP_FWD2);
    v.push(Shot { t: d, note: CAP_FWD3, fly: Some((2, 3, "data")), d1: 3, d2: 2, d3: 1, ttl_pkt: None, ospf: true });
    d = d + HOP_MS;
    v.push(Shot { t: d, note: CAP_FWD3, fly: None, d1: 3, d2: 2, d3: 1, ttl_pkt: None, ospf: true });
    d = d + cap_exec(CAP_FWD3);
    v.push(Shot { t: d, note: CAP_DROP, fly: None, d1: 3, d2: 2, d3: n, ttl_pkt: None, ospf: true });
    d = d + cap_exec(CAP_DROP) + FLASH_MS;
    v.push(Shot { t: d, note: CAP_MAP, fly: Some((2, 1, "flood")), d1: 3, d2: 2, d3: n, ttl_pkt: None, ospf: true });
    d = d + HOP_MS;
    v.push(Shot { t: d, note: CAP_MAP, fly: None, d1: 3, d2: n, d3: n, ttl_pkt: None, ospf: true });
    d = d + cap_exec(CAP_MAP);
    v.push(Shot { t: d, note: CAP_CONV_OSPF, fly: Some((1, 0, "flood")), d1: 3, d2: n, d3: n, ttl_pkt: None, ospf: true });
    d = d + HOP_MS;
    v.push(Shot { t: d, note: CAP_CONV_OSPF, fly: None, d1: n, d2: n, d3: n, ttl_pkt: None, ospf: true });
    let mut r = d + cap_exec(CAP_CONV_OSPF) + PAUSE;
    v.push(Shot { t: r, note: CAP_LOOP3, fly: Some((1, 2, "vector")), d1: 3, d2: 2, d3: n, ttl_pkt: None, ospf: false });
    r = r + HOP_MS;
    v.push(Shot { t: r, note: CAP_LOOP3, fly: None, d1: 3, d2: 2, d3: 3, ttl_pkt: None, ospf: false });
    r = r + cap_exec(CAP_LOOP3);
    v.push(Shot { t: r, note: CAP_LOOP_PKT, fly: None, d1: 3, d2: 2, d3: 3, ttl_pkt: Some((1, 4)), ospf: false });
    r = r + 500;
    v.push(Shot { t: r, note: CAP_LOOP_PKT, fly: None, d1: 3, d2: 2, d3: 3, ttl_pkt: Some((2, 3)), ospf: false });
    r = r + 500;
    v.push(Shot { t: r, note: CAP_LOOP_PKT, fly: None, d1: 3, d2: 2, d3: 3, ttl_pkt: Some((1, 2)), ospf: false });
    r = r + 500;
    v.push(Shot { t: r, note: CAP_LOOP_PKT, fly: None, d1: 3, d2: 2, d3: 3, ttl_pkt: Some((2, 1)), ospf: false });
    r = r + 500;
    v.push(Shot { t: r, note: CAP_LOOP_PKT, fly: None, d1: 3, d2: 2, d3: 3, ttl_pkt: Some((1, 0)), ospf: false });
    r = r + 800;
    v.push(Shot { t: r, note: CAP_TTL0, fly: None, d1: 3, d2: 2, d3: 3, ttl_pkt: None, ospf: false });
    r = r + cap_exec(CAP_TTL0);
    v.push(Shot { t: r, note: CAP_4, fly: Some((2, 1, "vector")), d1: 3, d2: 4, d3: 3, ttl_pkt: None, ospf: false });
    r = r + HOP_MS;
    v.push(Shot { t: r, note: CAP_4, fly: None, d1: 3, d2: 4, d3: 3, ttl_pkt: None, ospf: false });
    r = r + cap_exec(CAP_4);
    v.push(Shot { t: r, note: CAP_5, fly: Some((1, 2, "vector")), d1: 3, d2: 4, d3: 5, ttl_pkt: None, ospf: false });
    r = r + HOP_MS;
    v.push(Shot { t: r, note: CAP_5, fly: None, d1: 3, d2: 4, d3: 5, ttl_pkt: None, ospf: false });
    r = r + cap_exec(CAP_5);
    v.push(Shot { t: r, note: CAP_16, fly: Some((2, 1, "vector")), d1: 3, d2: 5, d3: 5, ttl_pkt: None, ospf: false });
    r = r + HOP_MS;
    v.push(Shot { t: r, note: CAP_16, fly: None, d1: 3, d2: n, d3: n, ttl_pkt: None, ospf: false });
    r = r + cap_exec(CAP_16);
    v.push(Shot { t: r, note: CAP_CONV_RIP, fly: Some((1, 0, "vector")), d1: 3, d2: n, d3: n, ttl_pkt: None, ospf: false });
    r = r + HOP_MS;
    v.push(Shot { t: r, note: CAP_CONV_RIP, fly: None, d1: n, d2: n, d3: n, ttl_pkt: None, ospf: false });
    proof {
        reveal(shots_spec);
    }
    assert(v@ =~= shots_spec());
    v
}

/// The shots merged in time order.
pub fn shots() -> (v: Vec<Shot>)
    ensures
        v@ == merged(),
        rip_t(15) <= 100000,
        is_perm(sorted_order(shot_times(shots_spec())), 28),
        stably_sorted(shot_times(shots_spec()), sorted_order(shot_times(shots_spec()))),
        forall|i: int, j: int| 0 <= i < j < v@.len() ==> v@[i].t <= v@[j].t,
{
    let raw = build();
    let mut times: Vec<u64> = Vec::new();
    let mut i: usize = 0;
    while i < raw.len()
        invariant
            i <= raw@.len(),
            times@ == shot_times(raw@).take(i as int),
        decreases raw@.len() - i,
    {
        times.push(raw[i].t);
        assert(shot_times(raw@).take(i + 1) =~= shot_times(raw@).take(i as int).push(raw@[i as int].t));
        i = i + 1;
    }
    assert(times@ =~= shot_times(raw@));
    let order = order_by_key(&times);
    let mut v: Vec<Shot> = Vec::new();
    let mut k: usize = 0;
    while k < order.len()
        invariant
            k <= order@.len(),
            order@ == sorted_order(shot_times(shots_spec())),
            order@.len() == raw@.len(),
            raw@ == shots_spec(),
            forall|q: int| 0 <= q < order@.len() ==> #[trigger] order@[q] < raw@.len(),
            v@ =~= Seq::new(k as nat, |q: int| shots_spec()[order@[q] as int]),
        decreases order@.len() - k,
    {
        v.push(raw[order[k]]);
        k = k + 1;
    }
    proof {
        let keys = shot_times(raw@);
        assert forall|i: int, j: int| 0 <= i < j < v@.len() implies v@[i].t <= v@[j].t by {
            assert(keys[order@[i] as int] <= keys[order@[j] as int]);
        }
    }
    v
}

/// Status under a router: its hop count to net N.
pub open spec fn hop_text(d: u8) -> Seq<char> {
    if d == UNREACHABLE { "unreachable"@ } else if d == 1 { "1 hop"@ } else { dec(d as nat) + " hops"@ }
}

fn hop_text_exec(d: u8) -> (s: String)
    ensures
        s@ == hop_text(d),
{
    let mut s = String::new();
    if d == UNREACHABLE {
        push_str(&mut s, "unreachable");
    } else if d == 1 {
        push_str(&mut s, "1 hop");
    } else {
        push_dec(&mut s, d as u64);
        push_str(&mut s, " hops");
    }
    s
}

/// Label of the looping packet.
pub open spec fn ttl_label(ttl: u8) -> Seq<char> {
    if ttl == 0 { "pkt ttl "@ + dec(ttl as nat) + " · dead"@ } else { "pkt ttl "@ + dec(ttl as nat) }
}

/// What the IGP sim shows at one moment.
pub struct IgpState {
    /// Index of the shot in progress, in time order.
    pub shot: usize,
    pub note: &'static str,
    /// Protocol named in the header.
    pub proto: &'static str,
    /// Status under R1, R2 and R3.
    pub statuses: Vec<String>,
    /// Message in flight: (from, to, kind, elapsed capped at `HOP_MS`).
    pub fly: Option<(usize, usize, &'static str, u64)>,
    /// The looping packet: position and label.
    pub ttl_pkt: Option<(usize, String)>,
}

/// Shot `j` (in time order) is the one shown at loop time `tt`: the last
/// shot that has started by then.
pub open spec fn shows(tt: int, j: int) -> bool {
    &&& 0 <= j < merged().len()
    &&& merged()[j].t <= tt
    &&& forall|k: int| j < k < merged().len() ==> #[trigger] merged()[k].t > tt
}

/// The IGP sim as a looping animation.
pub struct Igp;

impl Igp {
    pub fn duration(&self) -> (d: u64)
        ensures
            d == duration_spec(),
    {
        let _ = shots();
        proof {
            reveal_with_fuel(rip_t, 16);
        }
        let r = build();
        proof {
            lemma_shots_ends();
        }
        r[27].t + cap_exec(CAP_CONV_RIP) + PAUSE
    }

    /// State at `t` (looped): the last shot, in time order, at or before `t`.
    pub fn state_at(&self, t: u64) -> (st: IgpState)
        ensures
            ({
                let tt = (t as nat) % duration_spec();
                let j = st.shot as int;
                let s = merged()[j];
                &&& 0 <= j < merged().len()
                &&& s.t <= tt
                &&& forall|k: int| j < k < merged().len() ==> #[trigger] merged()[k].t > tt
                &&& shows(tt as int, j)
                &&& st.note == s.note
                &&& st.proto@ == (if s.ospf { "OSPF · LINK-STATE"@ } else { "RIP · DISTANCE-VECTOR"@ })
                &&& st.statuses@.len() == 3
                &&& st.statuses@[0]@ == hop_text(s.d1)
                &&& st.statuses@[1]@ == hop_text(s.d2)
                &&& st.statuses@[2]@ == hop_text(s.d3)
                &&& st.fly == (match s.fly {
                    Some((a, b, k)) => Some((a, b, k, if tt - s.t < HOP_MS { (tt - s.t) as u64 } else { HOP_MS })),
                    None => None,
                })
                &&& (match (st.ttl_pkt, s.ttl_pkt) {
                    (Some((x, l)), Some((y, ttl))) => x == y && l@ == ttl_label(ttl),
                    (None, None) => true,
                    _ => false,
                })
            }),
    {
        let sh = shots();
        let d = self.duration();
        let tt = t % d;
        let mut starts: Vec<u64> = Vec::new();
        let mut k: usize = 0;
        while k < sh.len()
            invariant
                k <= sh@.len(),
                starts@.len() == k,
                forall|q: int| 0 <= q < k ==> #[trigger] starts@[q] == sh@[q].t,
            decreases sh@.len() - k,
        {
            starts.push(sh[k].t);
            k = k + 1;
        }
        proof {
            lemma_shots_ends();
        }
        let j = crate::schedule::stage_index(&starts, tt);
        let s = sh[j];
        proof {
            if j == 0 {
                lemma_first_shot_at_zero();
            }
            assert forall|q: int| j < q < merged().len() implies #[trigger] merged()[q].t > tt by {
                assert(starts@[q] > tt);
            }
        }
        let mut statuses: Vec<String> = Vec::new();
        statuses.push(hop_text_exec(s.d1));
        statuses.push(hop_text_exec(s.d2));
        statuses.push(hop_text_exec(s.d3));
        let fly = match s.fly {
            Some((a, b, kind)) => Some((a, b, kind, if tt - s.t < HOP_MS { tt - s.t } else { HOP_MS })),
            None => None,
        };
        let ttl_pkt = match s.ttl_pkt {
            Some((x, ttl)) => {
                let mut l = String::new();
                push_str(&mut l, "pkt ttl ");
                push_dec(&mut l, ttl as u64);
                if ttl == 0 {
                    push_str(&mut l, " · dead");
                }
                Some((x, l))
            },
            None => None,
        };
        IgpState {
            shot: j,
            note: s.note,
            proto: if s.ospf { "OSPF · LINK-STATE" } else { "RIP · DISTANCE-VECTOR" },
            statuses,
            fly,
            ttl_pkt,
        }
    }
}

/// The story lists 28 shots, from the steady state at zero to the last RIP shot.
proof fn lemma_shots_ends()
    ensures
        shots_spec().len() == 28,
        shots_spec()[0].t == 0,
        shots_spec()[27].t == rip_t(15) as u64,
{
    reveal(shots_spec);
}

/// In time order the first shot is at time zero.
proof fn lemma_first_shot_at_zero()
    requires
        is_perm(sorted_order(shot_times(shots_spec())), 28),
        stably_sorted(shot_times(shots_spec()), sorted_order(shot_times(shots_spec()))),
    ensures
        merged()[0].t == 0,
{
    let keys = shot_times(shots_spec());
    let order = sorted_order(keys);
    lemma_shots_ends();
    assert(listed(order, 0));
    let i = choose|i: int| 0 <= i < order.len() && order[i] == 0;
    if i > 0 {
        assert(keys[order[0] as int] <= keys[order[i] as int]);
    }
}

#[verifier::rlimit(100)]
proof fn lemma_adjacent_shots(i: int)
    requires
        0 <= i < 27,
    ensures
        shots_spec()[i].t <= shots_spec()[i + 1].t,
        i == 11 ==> shots_spec()[i].t < shots_spec()[i + 1].t,
{
    reveal(shots_spec);
    reveal_with_fuel(pro_t, 8);
    reveal_with_fuel(rip_t, 16);
    lemma_shots_bounded();
}

proof fn lemma_shots_bounded()
    ensures
        rip_t(15) <= 100000,
        forall|i: int| 0 <= i <= 15 ==> #[trigger] rip_t(i) <= rip_t(15),
        forall|i: int| 0 <= i <= 7 ==> #[trigger] pro_t(i) <= t_drop_end(),
{
    reveal_with_fuel(pro_t, 8);
    reveal_with_fuel(rip_t, 16);
    assert(cap(CAP_STEADY) <= 3600 && cap(CAP_FWD1) <= 3600 && cap(CAP_FWD2) <= 3600 && cap(CAP_FWD3) <= 3600);
    assert(cap(CAP_DROP) <= 3600 && cap(CAP_MAP) <= 3600 && cap(CAP_CONV_OSPF) <= 3600 && cap(CAP_LOOP3) <= 3600);
    assert(cap(CAP_TTL0) <= 3600 && cap(CAP_4) <= 3600 && cap(CAP_5) <= 3600 && cap(CAP_16) <= 3600);
}

proof fn lemma_shots_ordered(i: int, j: int)
    requires
        0 <= i <= j < 28,
    ensures
        shots_spec()[i].t <= shots_spec()[j].t,
        i <= 11 < j ==> shots_spec()[i].t < shots_spec()[j].t,
    decreases j - i,
{
    if i < j {
        lemma_shots_ordered(i, j - 1);
        lemma_adjacent_shots(j - 1);
    }
}

proof fn lemma_story_flags()
    ensures
        forall|i: int| 0 <= i < 12 ==> (#[trigger] shots_spec()[i]).ospf,
        forall|j: int| 12 <= j < 28 ==> !(#[trigger] shots_spec()[j]).ospf,
{
    reveal(shots_spec);
}

proof fn lemma_listing_is_time_order()
    ensures
        merged() == shots_spec(),
{
    lemma_shots_ends();
    let keys = shot_times(shots_spec());
    let id = Seq::new(28, |i: int| i as usize);
    assert(is_perm(id, 28)) by {
        assert forall|m: int| 0 <= m < 28 implies #[trigger] listed(id, m) by {
            assert(id[m] == m);
        }
    }
    assert(stably_sorted(keys, id)) by {
        assert forall|i: int, j: int| 0 <= i < j < 28 implies keys[id[i] as int] <= keys[id[j] as int] by {
            lemma_shots_ordered(i, j);
        }
    }
    let order = sorted_order(keys);
    assert(is_perm(order, keys.len() as int) && stably_sorted(keys, order));
    lemma_stable_order_unique(keys, order, id);
    assert(merged() =~= shots_spec());
}

/// After the shared prologue the two stories play one after the other:
/// the shots are listed in time order, so that order is the one shown;
/// every OSPF shot (the prologue and the OSPF story) comes strictly before
/// every RIP shot, and the header's protocol follows the shot.
pub proof fn lemma_stories_alternate()
    ensures
        merged() == shots_spec(),
        shots_spec().len() == 28,
        forall|i: int, j: int| 0 <= i <= j < 28 ==> shots_spec()[i].t <= shots_spec()[j].t,
        forall|i: int| 0 <= i < 12 ==> (#[trigger] shots_spec()[i]).ospf,
        forall|j: int| 12 <= j < 28 ==> !(#[trigger] shots_spec()[j]).ospf,
        forall|i: int, j: int| 0 <= i < 12 <= j < 28 ==> shots_spec()[i].t < shots_spec()[j].t,
{
    lemma_shots_ends();
    assert forall|i: int, j: int| 0 <= i <= j < 28 implies shots_spec()[i].t <= shots_spec()[j].t by {
        lemma_shots_ordered(i, j);
    }
    assert forall|i: int, j: int| 0 <= i < 12 <= j < 28 implies shots_spec()[i].t < shots_spec()[j].t by {
        lemma_shots_ordered(i, j);
    }
    lemma_story_flags();
    lemma_listing_is_time_order();
}

/// The two stories take disjoint stretches of the loop: once a RIP shot is
/// shown, every later moment of the loop shows a RIP shot too, so no
/// OSPF shot is shown between two RIP shots; and each shot's header names
/// its own protocol (see `Igp::state_at`).
pub proof fn lemma_stories_disjoint(t1: int, t2: int, t3: int, j1: int, j2: int, j3: int)
    requires
        t1 <= t2 <= t3,
        shows(t1, j1),
        shows(t2, j2),
        shows(t3, j3),
        !merged()[j1].ospf,
    ensures
        j1 <= j2 <= j3,
        !merged()[j2].ospf,
        !merged()[j3].ospf,
{
    lemma_stories_alternate();
    if j2 < j1 {
        assert(merged()[j1].t > t2);
    }
    if j3 < j2 {
        assert(merged()[j2].t > t3);
    }
    if j1 < 12 {
        assert(shots_spec()[j1].ospf);
    }
    assert(!shots_spec()[j2].ospf);
    assert(!shots_spec()[j3].ospf);
}

} // verus!
