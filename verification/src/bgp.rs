//! BGP sim: AS1 originates a prefix, announcements propagate hop by hop with
//! each AS prepending itself to the AS-path, and AS5, hearing two paths,
//! picks the shorter one.
use vstd::prelude::*;
use crate::schedule::{caption_ms, caption_time};
use crate::text::{dec, push_str};

verus! {

pub const FLY: u64 = 900;
pub const PAUSE: u64 = 2400;

pub const CAP0: &'static str = "AS1 originates 91.198.174.0/24 and announces it to its two neighbors, AS2 and AS3.";
pub const CAP1: &'static str = "AS2 and AS3 each learn the route directly from AS1, then add themselves before re-announcing: AS-path [1, 2] and AS-path [1, 3].";
pub const CAP2: &'static str = "AS4 adds itself, AS-path [1, 2, 4], and forwards on. AS5 has already heard a shorter route from AS3: [1, 3], two ASes.";
pub const CAP3: &'static str = "AS5 now holds two routes to 91.198.174.0/24: via AS3 (AS-path [1, 3], length 2) and via AS4 ([1, 2, 4], length 3). With policy stripped away, shortest AS-path wins. AS5's table: 91.198.174.0/24 ➔ next hop AS3.";

/// Caption timing: 28 ms per byte, clamped to 1100..3400 ms.
pub open spec fn cap(s: Seq<char>) -> nat {
    caption_time(s, 28, 1100, 3400)
}

fn cap_exec(s: &str) -> (r: u64)
    ensures
        r == cap(s@),
        r <= 3400,
{
    caption_ms(s, 28, 1100, 3400)
}

/// One announcement in flight: from AS, to AS, and the AS-path it carries.
pub struct Flight {
    pub from: usize,
    pub to: usize,
    pub path: &'static str,
}

/// A stage: when it starts, its announcements, and its caption.
pub struct Stage {
    pub start: u64,
    pub flights: Vec<Flight>,
    pub note: &'static str,
}

pub open spec fn note_of(i: int) -> Seq<char> {
    if i == 0 { CAP0@ } else if i == 1 { CAP1@ } else if i == 2 { CAP2@ } else { CAP3@ }
}

pub open spec fn stage_start(i: int) -> nat
    decreases i,
{
    if i <= 0 { 0 } else { stage_start(i - 1) + cap(note_of(i - 1)) }
}

/// The announcements of stage `i` as (from, to, AS-path): AS1 to its
/// neighbors, then each of them one hop further with itself appended.
pub open spec fn flights_of(i: int) -> Seq<(usize, usize, Seq<char>)> {
    if i == 0 {
        seq![]
    } else if i == 1 {
        seq![(0usize, 1usize, "[1]"@), (0usize, 2usize, "[1]"@)]
    } else if i == 2 {
        seq![(1usize, 3usize, "[1, 2]"@), (2usize, 4usize, "[1, 3]"@)]
    } else {
        seq![(3usize, 4usize, "[1, 2, 4]"@)]
    }
}

pub open spec fn flight_view(f: Flight) -> (usize, usize, Seq<char>) {
    (f.from, f.to, f.path@)
}

pub open spec fn stage_ok(s: Stage, i: int) -> bool {
    &&& s.start == stage_start(i)
    &&& s.note@ == note_of(i)
    &&& s.flights@.map_values(|f: Flight| flight_view(f)) == flights_of(i)
}

/// Loop length: the four stages and the closing pause.
pub open spec fn duration_spec() -> nat {
    stage_start(3) + cap(CAP3@) + PAUSE as nat
}

/// The four stages of the loop.
pub fn stages() -> (v: Vec<Stage>)
    ensures
        v@.len() == 4,
        forall|i: int| 0 <= i < 4 ==> #[trigger] stage_ok(v@[i], i),
{
    let t0: u64 = 0;
    let t1 = t0 + cap_exec(CAP0);
    let t2 = t1 + cap_exec(CAP1);
    let t3 = t2 + cap_exec(CAP2);
    let v = vec![
        Stage { start: t0, flights: vec![], note: CAP0 },
        Stage { start: t1, flights: vec![Flight { from: 0, to: 1, path: "[1]" }, Flight { from: 0, to: 2, path: "[1]" }], note: CAP1 },
        Stage { start: t2, flights: vec![Flight { from: 1, to: 3, path: "[1, 2]" }, Flight { from: 2, to: 4, path: "[1, 3]" }], note: CAP2 },
        Stage { start: t3, flights: vec![Flight { from: 3, to: 4, path: "[1, 2, 4]" }], note: CAP3 },
    ];
    proof {
        assert(v@[0].flights@.map_values(|f: Flight| flight_view(f)) =~= flights_of(0));
        assert(v@[1].flights@.map_values(|f: Flight| flight_view(f)) =~= flights_of(1));
        assert(v@[2].flights@.map_values(|f: Flight| flight_view(f)) =~= flights_of(2));
        assert(v@[3].flights@.map_values(|f: Flight| flight_view(f)) =~= flights_of(3));
        reveal_with_fuel(stage_start, 4);
    }
    v
}

/// Loop length (ms).
pub fn duration() -> (d: u64)
    ensures
        d == duration_spec(),
{
    let st = stages();
    proof {
        assert(stage_ok(st@[3], 3));
        reveal_with_fuel(stage_start, 4);
    }
    st[3].start + cap_exec(CAP3) + PAUSE
}

/// What the BGP sim shows at one moment.
pub struct BgpState {
    pub stage: usize,
    pub note: &'static str,
    /// Announcements in flight, with progress `(dt - 30) / FLY` for the app.
    pub flying: bool,
    pub dt: u64,
    /// Status line under each AS.
    pub statuses: Vec<String>,
    /// Top-left label of the stage.
    pub label: &'static str,
    /// AS5 holds both routes: the decision panel is shown.
    pub decided: bool,
}

/// Announcements of stage `i` have landed by `tt`.
pub open spec fn landed_through(i: int, tt: nat) -> bool {
    tt >= stage_start(i) + 930
}

/// The status of AS `i`: the AS-path it announces ("-" before it learned
/// one), and for AS5 how many routes it holds.
pub open spec fn status_of(i: int, tt: nat) -> Seq<char> {
    if i == 4 {
        if landed_through(3, tt) { "2 routes"@ } else if landed_through(2, tt) { "1 route"@ } else { "-"@ }
    } else {
        "announces "@ + if i == 0 { "[1]"@ } else if i == 1 { if landed_through(1, tt) { "[1, 2]"@ } else { "-"@ } }
            else if i == 2 { if landed_through(1, tt) { "[1, 3]"@ } else { "-"@ } }
            else { if landed_through(2, tt) { "[1, 2, 4]"@ } else { "-"@ } }
    }
}

/// The BGP sim as a looping animation.
pub struct Bgp;

impl Bgp {
    pub fn duration(&self) -> (d: u64)
        ensures
            d == duration_spec(),
    {
        duration()
    }

    /// State at `t` (looped).
    pub fn state_at(&self, t: u64) -> (st: BgpState)
        ensures
            ({
                let tt = (t as nat) % duration_spec();
                let i = st.stage as int;
                &&& 0 <= i < 4
                &&& stage_start(i) <= tt
                &&& (i < 3 ==> tt < stage_start(i + 1))
                &&& st.note@ == note_of(i)
                &&& st.dt == tt - stage_start(i)
                &&& st.flying == (30 <= st.dt < 930)
                &&& st.statuses@.len() == 5
                &&& forall|k: int| 0 <= k < 5 ==> (#[trigger] st.statuses@[k])@ == status_of(k, tt)
                &&& st.label@ == (if i == 0 { "AS1 originating route"@ } else if i == 3 && landed_through(3, tt) {
                        "AS5 comparing AS-path length"@ } else { "announcement propagating"@ })
                &&& st.decided == landed_through(3, tt)
            }),
    {
        let st = stages();
        proof {
            assert(stage_ok(st@[0], 0));
            assert(stage_ok(st@[1], 1));
            assert(stage_ok(st@[2], 2));
            assert(stage_ok(st@[3], 3));
            reveal_with_fuel(stage_start, 4);
        }
        let d = st[3].start + cap_exec(CAP3) + PAUSE;
        let tt = t % d;
        let mut starts: Vec<u64> = Vec::new();
        let mut k: usize = 0;
        while k < 4
            invariant
                k <= 4,
                st@.len() == 4,
                starts@.len() == k,
                forall|j: int| 0 <= j < k ==> #[trigger] starts@[j] == st@[j].start,
            decreases 4 - k,
        {
            starts.push(st[k].start);
            k = k + 1;
        }
        let i = crate::schedule::stage_index(&starts, tt);
        proof {
            if i < 3 {
                assert(starts@[i + 1] > tt);
            }
        }
        let dt = tt - st[i].start;
        let lt1 = tt >= st[1].start + 930;
        let lt2 = tt >= st[2].start + 930;
        let lt3 = tt >= st[3].start + 930;
        let mut statuses: Vec<String> = Vec::new();
        let mut a: usize = 0;
        while a < 5
            invariant
                a <= 5,
                statuses@.len() == a,
                lt1 == landed_through(1, tt as nat),
                lt2 == landed_through(2, tt as nat),
                lt3 == landed_through(3, tt as nat),
                forall|j: int| 0 <= j < a ==> (#[trigger] statuses@[j])@ == status_of(j, tt as nat),
            decreases 5 - a,
        {
            let mut s = String::new();
            if a == 4 {
                push_str(&mut s, if lt3 { "2 routes" } else if lt2 { "1 route" } else { "-" });
            } else {
                push_str(&mut s, "announces ");
                let p = if a == 0 { "[1]" } else if a == 1 { if lt1 { "[1, 2]" } else { "-" } }
                    else if a == 2 { if lt1 { "[1, 3]" } else { "-" } } else { if lt2 { "[1, 2, 4]" } else { "-" } };
                push_str(&mut s, p);
            }
            assert(s@ =~= status_of(a as int, tt as nat));
            statuses.push(s);
            a = a + 1;
        }
        let label = if i == 0 { "AS1 originating route" } else if i == 3 && lt3 { "AS5 comparing AS-path length" } else { "announcement propagating" };
        BgpState { stage: i, note: st[i].note, flying: 30 <= dt && dt < 930, dt, statuses, label, decided: lt3 }
    }
}

/// The AS numbers of a path, separated by ", ".
pub open spec fn path_items(s: Seq<nat>) -> Seq<char>
    decreases s.len(),
{
    if s.len() == 0 {
        seq![]
    } else if s.len() == 1 {
        dec(s[0])
    } else {
        path_items(s.drop_last()) + ", "@ + dec(s.last())
    }
}

/// An AS-path as it is written: `[1, 2, 4]`.
pub open spec fn as_path_text(s: Seq<nat>) -> Seq<char> {
    "["@ + path_items(s) + "]"@
}

/// Route propagation: AS1 announces `[1]`; every announcement carries the
/// path its sender announces, which ends in the sender's own number; and
/// once it has landed, an AS receiving it (AS2 to AS4) announces the
/// received path with its own number appended. The returned path is the
/// one carried.
pub proof fn lemma_as_prepends(tt: nat, i: int, j: int) -> (q: Seq<nat>)
    requires
        1 <= i < 4,
        0 <= j < flights_of(i).len(),
        landed_through(i, tt),
    ensures
        status_of(0, tt) == "announces "@ + as_path_text(seq![1nat]),
        flights_of(i)[j].2 == as_path_text(q),
        q.len() > 0 && q.last() == flights_of(i)[j].0 + 1,
        status_of(flights_of(i)[j].0 as int, tt) == "announces "@ + as_path_text(q),
        flights_of(i)[j].1 < 4 ==> status_of(flights_of(i)[j].1 as int, tt)
            == "announces "@ + as_path_text(q.push((flights_of(i)[j].1 + 1) as nat)),
{
    reveal_with_fuel(stage_start, 4);
    reveal_with_fuel(path_items, 4);
    reveal_strlit("[1]");
    reveal_strlit("[1, 2]");
    reveal_strlit("[1, 3]");
    reveal_strlit("[1, 2, 4]");
    reveal_strlit("[");
    reveal_strlit("]");
    reveal_strlit(", ");
    let one: Seq<nat> = seq![1nat];
    assert(dec(1) == seq!['1']);
    assert(dec(2) == seq!['2']);
    assert(dec(3) == seq!['3']);
    assert(dec(4) == seq!['4']);
    assert(dec(5) == seq!['5']);
    assert(as_path_text(one) =~= "[1]"@);
    let p12: Seq<nat> = seq![1nat, 2nat];
    let p13: Seq<nat> = seq![1nat, 3nat];
    let p124: Seq<nat> = seq![1nat, 2nat, 4nat];
    assert(p12.drop_last() =~= one);
    assert(p13.drop_last() =~= one);
    assert(p124.drop_last() =~= p12);
    assert(as_path_text(p12) =~= "[1, 2]"@);
    assert(as_path_text(p13) =~= "[1, 3]"@);
    assert(as_path_text(p124) =~= "[1, 2, 4]"@);
    assert(one.push(2nat) =~= p12);
    assert(one.push(3nat) =~= p13);
    assert(p12.push(4nat) =~= p124);
    assert(landed_through(1, tt));
    if i == 1 {
        one
    } else if i == 2 {
        if j == 0 { p12 } else { p13 }
    } else {
        assert(landed_through(2, tt));
        p124
    }
}

} // verus!
