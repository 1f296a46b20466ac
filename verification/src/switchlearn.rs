//! Switch sim: a switch learns which MAC address sits on which port by
//! watching source addresses; a frame to an unknown destination is flooded,
//! one to a learned destination goes out its port only.
use vstd::prelude::*;
use crate::schedule::{caption_ms, caption_time, max_nat};
use crate::text::push_str;

verus! {

pub const FLY_OUT: u64 = 750;
pub const PAUSE: u64 = 1300;

pub open spec fn port_id(i: int) -> Seq<char> {
    if i == 0 { "port 1"@ } else if i == 1 { "port 2"@ } else if i == 2 { "port 3"@ } else { "port 4"@ }
}

pub open spec fn port_mac(i: int) -> Seq<char> {
    if i == 0 { "A1:11:1A"@ } else if i == 1 { "B2:22:2B"@ } else if i == 2 { "C3:33:3C"@ } else { "D4:44:4D"@ }
}

/// Port `i`: its name and the MAC address of the device on it.
pub fn port(i: usize) -> (p: (&'static str, &'static str))
    requires
        i < 4,
    ensures
        p.0@ == port_id(i as int),
        p.1@ == port_mac(i as int),
{
    if i == 0 { ("port 1", "A1:11:1A") } else if i == 1 { ("port 2", "B2:22:2B") } else if i == 2 { ("port 3", "C3:33:3C") } else { ("port 4", "D4:44:4D") }
}

/// Episodes as (source port, destination port).
pub open spec fn episode_pair(e: int) -> (int, int) {
    if e == 0 { (0, 3) } else if e == 1 { (3, 0) } else if e == 2 { (1, 2) } else { (2, 1) }
}

fn pair_exec(e: usize) -> (p: (usize, usize))
    requires
        e < 4,
    ensures
        p.0 as int == episode_pair(e as int).0,
        p.1 as int == episode_pair(e as int).1,
{
    if e == 0 { (0, 3) } else if e == 1 { (3, 0) } else if e == 2 { (1, 2) } else { (2, 1) }
}

/// The destination of episode `e` was the source of an earlier frame, so the
/// switch has learned its port.
pub open spec fn is_known(e: int) -> bool {
    exists|j: int| 0 <= j < e && #[trigger] episode_pair(j).0 == episode_pair(e).1
}

/// Caption timing: 28 ms per byte, clamped to 950..4200 ms.
pub open spec fn cap(s: Seq<char>) -> nat {
    caption_time(s, 28, 950, 4200)
}

/// Caption `k` (arriving, reading, learning, lookup, forwarding) of episode `e`.
pub open spec fn caption(e: int, k: int) -> Seq<char> {
    let (s, d) = episode_pair(e);
    if k == 0 {
        "Frame arrives on "@ + port_id(s) + ": source "@ + port_mac(s) + ", destination "@ + port_mac(d) + "."@
    } else if k == 1 {
        "Switch reads the frame: source "@ + port_mac(s) + " on "@ + port_id(s) + ", destination "@ + port_mac(d) + "."@
    } else if k == 2 {
        "Learns: "@ + port_mac(s) + " is on "@ + port_id(s)
            + ", adds it to the table, even though this frame isn't addressed to the switch itself."@
    } else if k == 3 {
        if is_known(e) {
            "Checks the table for "@ + port_mac(d) + ", found it on "@ + port_id(d) + ", learned earlier. Forwards directly, "@
                + port_id(d) + " only."@
        } else {
            "Checks the table for "@ + port_mac(d) + ", not there yet. Floods the frame out every port except "@ + port_id(s)
                + ", so it's guaranteed to arrive."@
        }
    } else {
        if is_known(e) {
            "Forwarded out "@ + port_id(d) + " only, the other ports never see this frame."@
        } else {
            "Flooded out every port but "@ + port_id(s) + ", every other device sees it, but only "@ + port_mac(d)
                + " will recognize itself as the destination."@
        }
    }
}

pub struct Episode {
    pub start: u64,
    pub t_read: u64,
    pub t_learn: u64,
    pub t_lookup: u64,
    pub t_forward: u64,
    pub known: bool,
    pub caps: Vec<String>,
}

pub open spec fn episode_len(e: int) -> nat {
    max_nat(cap(caption(e, 0)), 700) + cap(caption(e, 1)) + cap(caption(e, 2)) + cap(caption(e, 3))
        + max_nat(cap(caption(e, 4)), FLY_OUT as nat) + PAUSE as nat
}

pub open spec fn episode_start(e: int) -> nat
    decreases e,
{
    if e <= 0 { 0 } else { episode_start(e - 1) + episode_len(e - 1) }
}

pub open spec fn episode_ok(ep: Episode, e: int) -> bool {
    &&& ep.caps@.len() == 5
    &&& forall|k: int| 0 <= k < 5 ==> (#[trigger] ep.caps@[k])@ == caption(e, k)
    &&& ep.known == is_known(e)
    &&& ep.start == episode_start(e)
    &&& ep.t_read == ep.start + max_nat(cap(caption(e, 0)), 700)
    &&& ep.t_learn == ep.t_read + cap(caption(e, 1))
    &&& ep.t_lookup == ep.t_learn + cap(caption(e, 2))
    &&& ep.t_forward == ep.t_lookup + cap(caption(e, 3))
}

/// Episodes 1 and 3 send to a port that spoke earlier; 0 and 2 do not.
pub proof fn lemma_known()
    ensures
        !is_known(0),
        is_known(1),
        !is_known(2),
        is_known(3),
{
    assert(episode_pair(0).0 == episode_pair(1).1);
    assert(episode_pair(2).0 == episode_pair(3).1);
    assert forall|j: int| 0 <= j < 2 implies #[trigger] episode_pair(j).0 != episode_pair(2).1 by {}
}

fn caption_exec(e: usize, k: usize, known: bool) -> (c: String)
    requires
        e < 4,
        k < 5,
        known == is_known(e as int),
    ensures
        c@ == caption(e as int, k as int),
{
    let (si, di) = pair_exec(e);
    let (sid, smac) = port(si);
    let (did, dmac) = port(di);
    let mut c = String::new();
    if k == 0 {
        push_str(&mut c, "Frame arrives on ");
        push_str(&mut c, sid);
        push_str(&mut c, ": source ");
        push_str(&mut c, smac);
        push_str(&mut c, ", destination ");
        push_str(&mut c, dmac);
        push_str(&mut c, ".");
    } else if k == 1 {
        push_str(&mut c, "Switch reads the frame: source ");
        push_str(&mut c, smac);
        push_str(&mut c, " on ");
        push_str(&mut c, sid);
        push_str(&mut c, ", destination ");
        push_str(&mut c, dmac);
        push_str(&mut c, ".");
    } else if k == 2 {
        push_str(&mut c, "Learns: ");
        push_str(&mut c, smac);
        push_str(&mut c, " is on ");
        push_str(&mut c, sid);
        push_str(&mut c, ", adds it to the table, even though this frame isn't addressed to the switch itself.");
    } else if k == 3 {
        if known {
            push_str(&mut c, "Checks the table for ");
            push_str(&mut c, dmac);
            push_str(&mut c, ", found it on ");
            push_str(&mut c, did);
            push_str(&mut c, ", learned earlier. Forwards directly, ");
            push_str(&mut c, did);
            push_str(&mut c, " only.");
        } else {
            push_str(&mut c, "Checks the table for ");
            push_str(&mut c, dmac);
            push_str(&mut c, ", not there yet. Floods the frame out every port except ");
            push_str(&mut c, sid);
            push_str(&mut c, ", so it's guaranteed to arrive.");
        }
    } else {
        if known {
            push_str(&mut c, "Forwarded out ");
            push_str(&mut c, did);
            push_str(&mut c, " only, the other ports never see this frame.");
        } else {
            push_str(&mut c, "Flooded out every port but ");
            push_str(&mut c, sid);
            push_str(&mut c, ", every other device sees it, but only ");
            push_str(&mut c, dmac);
            push_str(&mut c, " will recognize itself as the destination.");
        }
    }
    assert(c@ =~= caption(e as int, k as int));
    c
}

fn cap_exec(s: &String) -> (r: u64)
    ensures
        r == cap(s@),
        r <= 4200,
{
    caption_ms(s.as_str(), 28, 950, 4200)
}

/// Source ports learned before episode `e`.
pub open spec fn learned_before(e: int) -> Seq<usize> {
    if e <= 0 { seq![] } else if e == 1 { seq![0usize] } else if e == 2 { seq![0usize, 3usize] } else if e == 3 { seq![0usize, 3usize, 1usize] } else { seq![0usize, 3usize, 1usize, 2usize] }
}

/// The four episodes of one loop. The table starts empty and learns each
/// frame's source port; a destination is known when its port is in it.
pub fn episodes() -> (v: Vec<Episode>)
    ensures
        v@.len() == 4,
        forall|e: int| 0 <= e < 4 ==> #[trigger] episode_ok(v@[e], e),
        forall|e: int| 0 <= e < 4 ==> (#[trigger] v@[e]).t_forward <= 22300 * 4,
{
    proof { lemma_known(); }
    let mut v: Vec<Episode> = Vec::new();
    let mut table: Vec<usize> = Vec::new();
    let mut t: u64 = 0;
    let mut e: usize = 0;
    while e < 4
        invariant
            e <= 4,
            v@.len() == e,
            t == episode_start(e as int),
            t <= 22300 * e,
            forall|q: int| 0 <= q < e ==> #[trigger] episode_ok(v@[q], q),
            forall|q: int| 0 <= q < e ==> (#[trigger] v@[q]).t_forward <= 22300 * 4,
            table@ == learned_before(e as int),
            !is_known(0) && is_known(1) && !is_known(2) && is_known(3),
        decreases 4 - e,
    {
        let (si, di) = pair_exec(e);
        let mut known = false;
        let mut m: usize = 0;
        while m < table.len()
            invariant
                m <= table@.len(),
                known == exists|q: int| 0 <= q < m && table@[q] == di,
            decreases table@.len() - m,
        {
            if table[m] == di {
                known = true;
            }
            m = m + 1;
        }
        proof {
            if e == 1 { assert(table@[0] == di); }
            if e == 3 { assert(table@[2] == di); }
            if e == 2 { assert(table@[0] != di && table@[1] != di); }
            assert(known == is_known(e as int));
        }
        let mut caps: Vec<String> = Vec::new();
        let mut k: usize = 0;
        while k < 5
            invariant
                k <= 5,
                e < 4,
                known == is_known(e as int),
                caps@.len() == k,
                forall|j: int| 0 <= j < k ==> (#[trigger] caps@[j])@ == caption(e as int, j),
            decreases 5 - k,
        {
            caps.push(caption_exec(e, k, known));
            k = k + 1;
        }
        let c0 = cap_exec(&caps[0]);
        let t_read = t + if c0 < 700 { 700 } else { c0 };
        let t_learn = t_read + cap_exec(&caps[1]);
        let t_lookup = t_learn + cap_exec(&caps[2]);
        let t_forward = t_lookup + cap_exec(&caps[3]);
        let c4 = cap_exec(&caps[4]);
        let end = t_forward + if c4 < FLY_OUT { FLY_OUT } else { c4 } + PAUSE;
        let ep = Episode { start: t, t_read, t_learn, t_lookup, t_forward, known, caps };
        assert(episode_ok(ep, e as int));
        v.push(ep);
        table.push(si);
        assert(table@ =~= learned_before(e + 1));
        t = end;
        e = e + 1;
    }
    v
}

/// Loop length (ms).
pub fn duration() -> (d: u64)
    ensures
        d == episode_start(4),
{
    let eps = episodes();
    assert(episode_ok(eps@[3], 3));
    let c4 = cap_exec(&eps[3].caps[4]);
    eps[3].t_forward + if c4 < FLY_OUT { FLY_OUT } else { c4 } + PAUSE
}

/// Stage of an episode.
#[derive(PartialEq, Eq, Structural, Clone, Copy, Debug)]
pub enum SwitchStage {
    Arriving,
    Reading,
    Learning,
    Lookup,
    Forwarding,
}

pub open spec fn stage_index_of(s: SwitchStage) -> int {
    match s {
        SwitchStage::Arriving => 0,
        SwitchStage::Reading => 1,
        SwitchStage::Learning => 2,
        SwitchStage::Lookup => 3,
        SwitchStage::Forwarding => 4,
    }
}

/// Ports a frame leaves by: the destination's port when known, otherwise
/// every port except the one it came in on.
pub open spec fn out_ports(e: int) -> Seq<int> {
    let (s, d) = episode_pair(e);
    if is_known(e) {
        seq![d]
    } else {
        Seq::new(4, |i: int| i).filter(|i: int| i != s)
    }
}

/// What the switch sim shows at one moment.
pub struct SwitchState {
    pub episode: usize,
    pub stage: SwitchStage,
    pub note: String,
    /// Ports the frame is sent out of during forwarding.
    pub targets: Vec<usize>,
    /// Entries of the forwarding table learned so far, as port indices.
    pub learned: Vec<usize>,
}

/// The switch sim as a looping animation.
pub struct SwitchLearn;

impl SwitchLearn {
    pub fn duration(&self) -> (d: u64)
        ensures
            d == episode_start(4),
    {
        duration()
    }

    /// State at `t` (looped).
    pub fn state_at(&self, t: u64) -> (st: SwitchState)
        ensures
            ({
                let tt = (t as nat) % episode_start(4);
                let e = st.episode as int;
                let r = episode_start(e) + max_nat(cap(caption(e, 0)), 700);
                let l = r + cap(caption(e, 1));
                let k = l + cap(caption(e, 2));
                let f = k + cap(caption(e, 3));
                &&& 0 <= e < 4
                &&& episode_start(e) <= tt
                &&& (e < 3 ==> tt < episode_start(e + 1))
                &&& st.stage == (if tt >= f { SwitchStage::Forwarding } else if tt >= k { SwitchStage::Lookup }
                        else if tt >= l { SwitchStage::Learning } else if tt >= r { SwitchStage::Reading } else { SwitchStage::Arriving })
                &&& st.note@ == caption(e, stage_index_of(st.stage))
                &&& st.targets@.map_values(|p: usize| p as int) == out_ports(e)
                &&& st.learned@.len() == (if stage_index_of(st.stage) >= 2 { e + 1 } else { e })
                &&& forall|j: int| 0 <= j < st.learned@.len() ==> st.learned@[j] as int == #[trigger] episode_pair(j).0
            }),
    {
        let eps = episodes();
        proof {
            assert(episode_ok(eps@[0], 0));
            lemma_start_monotone(1, 4);
            lemma_known();
        }
        let d = duration();
        let tt = t % d;
        let mut starts: Vec<u64> = Vec::new();
        let mut i: usize = 0;
        while i < 4
            invariant
                i <= 4,
                eps@.len() == 4,
                starts@.len() == i,
                forall|j: int| 0 <= j < i ==> #[trigger] starts@[j] == eps@[j].start,
            decreases 4 - i,
        {
            starts.push(eps[i].start);
            i = i + 1;
        }
        let e = crate::schedule::stage_index(&starts, tt);
        let ep = &eps[e];
        proof {
            assert(episode_ok(eps@[e as int], e as int));
            assert(starts@[0] == 0) by { assert(episode_ok(eps@[0], 0)); }
            if e < 3 {
                assert(episode_ok(eps@[e + 1], e + 1));
                assert(starts@[e + 1] > tt);
            }
        }
        let (stage, idx) = if tt >= ep.t_forward {
            (SwitchStage::Forwarding, 4usize)
        } else if tt >= ep.t_lookup {
            (SwitchStage::Lookup, 3)
        } else if tt >= ep.t_learn {
            (SwitchStage::Learning, 2)
        } else if tt >= ep.t_read {
            (SwitchStage::Reading, 1)
        } else {
            (SwitchStage::Arriving, 0)
        };
        let note = ep.caps[idx].clone();
        let (si, di) = pair_exec(e);
        let mut targets: Vec<usize> = Vec::new();
        if ep.known {
            targets.push(di);
            assert(targets@.map_values(|p: usize| p as int) =~= out_ports(e as int));
        } else {
            let mut p: usize = 0;
            while p < 4
                invariant
                    p <= 4,
                    si < 4,
                    si as int == episode_pair(e as int).0,
                    targets@.map_values(|q: usize| q as int) == Seq::new(p as nat, |i: int| i).filter(|i: int| i != si as int),
                decreases 4 - p,
            {
                let ghost before = targets@;
                if p != si {
                    targets.push(p);
                }
                proof {
                    let s1 = Seq::new((p + 1) as nat, |i: int| i);
                    let s0 = Seq::new(p as nat, |i: int| i);
                    assert(s1.drop_last() =~= s0);
                    assert(s1.filter(|i: int| i != si as int) == s0.filter(|i: int| i != si as int)
                        + if p != si { seq![p as int] } else { seq![] }) by {
                        reveal(Seq::filter);
                        assert(s1.last() == p as int);
                    }
                    assert(targets@.map_values(|q: usize| q as int) =~= before.map_values(|q: usize| q as int)
                        + if p != si { seq![p as int] } else { seq![] });
                }
                p = p + 1;
            }
        }
        let mut learned: Vec<usize> = Vec::new();
        let upto = if idx >= 2 { e + 1 } else { e };
        let mut j: usize = 0;
        while j < upto
            invariant
                j <= upto <= 4,
                learned@.len() == j,
                forall|q: int| 0 <= q < j ==> learned@[q] as int == #[trigger] episode_pair(q).0,
            decreases upto - j,
        {
            let (s2, _) = pair_exec(j);
            learned.push(s2);
            j = j + 1;
        }
        SwitchState { episode: e, stage, note, targets, learned }
    }
}

proof fn lemma_start_monotone(p: int, q: int)
    requires
        0 <= p <= q,
    ensures
        episode_start(p) <= episode_start(q),
    decreases q - p,
{
    if p < q {
        lemma_start_monotone(p, q - 1);
    }
}

} // verus!
