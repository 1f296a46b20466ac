//! MTU sim: a 3000-byte packet meets a 1500-byte link. First the router
//! splits it into two fragments; then, with "don't fragment" set, it drops
//! the packet and answers with ICMP "Fragmentation Needed".
use vstd::prelude::*;
use crate::schedule::{caption_ms, caption_time, max_nat};
use crate::text::{dec, push_dec, push_str};

verus! {

pub const FLY: u64 = 700;
pub const PAUSE: u64 = 1600;
pub const MTU: u64 = 1500;
pub const SIZE: u64 = 3000;

/// Caption timing: 28 ms per byte, clamped to 1050..4200 ms.
pub open spec fn cap(s: Seq<char>) -> nat {
    caption_time(s, 28, 1050, 4200)
}

fn cap_exec(s: &str) -> (r: u64)
    ensures
        r == cap(s@),
        r <= 4200,
{
    caption_ms(s, 28, 1050, 4200)
}

/// The packet does not fit the link, and its two fragments do and add up
/// to it.
pub proof fn lemma_fragments_fit()
    ensures
        SIZE > MTU,
        MTU + (SIZE - MTU) == SIZE,
        SIZE - MTU <= MTU,
{
}

/// The two scenarios: fragmentation, then path MTU discovery.
#[derive(PartialEq, Eq, Structural, Clone, Copy, Debug)]
pub enum Mode {
    Fragment,
    Pmtud,
}

pub open spec fn size_text() -> Seq<char> {
    dec(SIZE as nat)
}

pub open spec fn mtu_text() -> Seq<char> {
    dec(MTU as nat)
}

pub open spec fn rest_text() -> Seq<char> {
    dec((SIZE - MTU) as nat)
}

/// Caption `i` of a scenario (0 sending, 1 at the router, 2 acting,
/// 3 and 4 the fragments leaving, 5 reassembly, 6 the sender notified).
pub open spec fn caption(m: Mode, i: int) -> Seq<char> {
    if i == 0 {
        if m == Mode::Fragment {
            "Sender ships a "@ + size_text() + " byte packet toward the router. The next link's MTU is only "@ + mtu_text() + " bytes."@
        } else {
            "Sender ships a "@ + size_text() + " byte packet marked \"don't fragment\" (DF). The next link's MTU is only "@ + mtu_text() + " bytes."@
        }
    } else if i == 1 {
        "Router sees "@ + size_text() + " bytes won't fit through a "@ + mtu_text() + " byte link."@
    } else if i == 2 {
        if m == Mode::Fragment {
            "Router slices it into two fragments, "@ + mtu_text() + "B and "@ + rest_text() + "B, each a valid packet, and forwards both on."@
        } else {
            "DF forbids splitting it. Router drops the packet and sends back ICMP \"Fragmentation Needed, next-hop MTU "@ + mtu_text() + ".\""@
        }
    } else if i == 3 {
        "First fragment, "@ + mtu_text() + "B, departs."@
    } else if i == 4 {
        "Second fragment, "@ + rest_text() + "B, departs right behind the first."@
    } else if i == 5 {
        "Destination reassembles both fragments back into the original "@ + size_text() + " byte packet using the fragment offsets in their headers."@
    } else {
        "Sender receives the ICMP notice and remembers: for this destination, keep future packets at or under "@ + mtu_text() + " bytes."@
    }
}

fn caption_exec(m: Mode, i: usize) -> (s: String)
    requires
        i < 7,
    ensures
        s@ == caption(m, i as int),
{
    let mut s = String::new();
    if i == 0 {
        push_str(&mut s, "Sender ships a ");
        push_dec(&mut s, SIZE);
        if m == Mode::Fragment {
            push_str(&mut s, " byte packet toward the router. The next link's MTU is only ");
        } else {
            push_str(&mut s, " byte packet marked \"don't fragment\" (DF). The next link's MTU is only ");
        }
        push_dec(&mut s, MTU);
        push_str(&mut s, " bytes.");
    } else if i == 1 {
        push_str(&mut s, "Router sees ");
        push_dec(&mut s, SIZE);
        push_str(&mut s, " bytes won't fit through a ");
        push_dec(&mut s, MTU);
        push_str(&mut s, " byte link.");
    } else if i == 2 {
        if m == Mode::Fragment {
            push_str(&mut s, "Router slices it into two fragments, ");
            push_dec(&mut s, MTU);
            push_str(&mut s, "B and ");
            push_dec(&mut s, SIZE - MTU);
            push_str(&mut s, "B, each a valid packet, and forwards both on.");
        } else {
            push_str(&mut s, "DF forbids splitting it. Router drops the packet and sends back ICMP \"Fragmentation Needed, next-hop MTU ");
            push_dec(&mut s, MTU);
            push_str(&mut s, ".\"");
        }
    } else if i == 3 {
        push_str(&mut s, "First fragment, ");
        push_dec(&mut s, MTU);
        push_str(&mut s, "B, departs.");
    } else if i == 4 {
        push_str(&mut s, "Second fragment, ");
        push_dec(&mut s, SIZE - MTU);
        push_str(&mut s, "B, departs right behind the first.");
    } else if i == 5 {
        push_str(&mut s, "Destination reassembles both fragments back into the original ");
        push_dec(&mut s, SIZE);
        push_str(&mut s, " byte packet using the fragment offsets in their headers.");
    } else {
        push_str(&mut s, "Sender receives the ICMP notice and remembers: for this destination, keep future packets at or under ");
        push_dec(&mut s, MTU);
        push_str(&mut s, " bytes.");
    }
    s
}

pub open spec fn c(m: Mode, i: int) -> nat {
    cap(caption(m, i))
}

pub open spec fn t_at_router(m: Mode) -> nat {
    max_nat(c(m, 0), 850)
}

pub open spec fn t_acting(m: Mode) -> nat {
    t_at_router(m) + c(m, 1)
}

pub open spec fn t_deliver(m: Mode) -> nat {
    t_acting(m) + max_nat(c(m, 2), 850)
}

/// The second fragment departs (fragmentation only).
pub open spec fn t_f2(m: Mode) -> nat {
    if m == Mode::Fragment { t_deliver(m) + max_nat(c(m, 3), 850) } else { t_deliver(m) }
}

pub open spec fn t_reassemble(m: Mode) -> nat {
    if m == Mode::Fragment { t_f2(m) + max_nat(c(m, 4), 850) } else { t_deliver(m) }
}

/// Length of a scenario, pause included.
pub open spec fn scenario_end(m: Mode) -> nat {
    if m == Mode::Fragment { t_reassemble(m) + c(m, 5) + PAUSE as nat } else { t_deliver(m) + c(m, 6) + PAUSE as nat }
}

pub open spec fn duration_spec() -> nat {
    scenario_end(Mode::Fragment) + scenario_end(Mode::Pmtud)
}

/// One scenario's stage boundaries (relative to its start) and captions.
pub struct Sched {
    pub mode: Mode,
    pub t_at_router: u64,
    pub t_acting: u64,
    pub t_deliver: u64,
    pub t_f2: u64,
    pub t_reassemble: u64,
    pub end: u64,
    pub caps: Vec<String>,
}

pub open spec fn sched_ok(s: Sched, m: Mode) -> bool {
    &&& s.mode == m
    &&& s.t_at_router == t_at_router(m)
    &&& s.t_acting == t_acting(m)
    &&& s.t_deliver == t_deliver(m)
    &&& s.t_f2 == t_f2(m)
    &&& s.t_reassemble == t_reassemble(m)
    &&& s.end == scenario_end(m)
    &&& s.caps@.len() == 7
    &&& forall|i: int| 0 <= i < 7 ==> (#[trigger] s.caps@[i])@ == caption(m, i)
}

fn sched_of(m: Mode) -> (s: Sched)
    ensures
        sched_ok(s, m),
        s.end <= 7 * 4200 + PAUSE,
{
    let mut caps: Vec<String> = Vec::new();
    let mut i: usize = 0;
    while i < 7
        invariant
            i <= 7,
            caps@.len() == i,
            forall|j: int| 0 <= j < i ==> (#[trigger] caps@[j])@ == caption(m, j),
        decreases 7 - i,
    {
        caps.push(caption_exec(m, i));
        i = i + 1;
    }
    let c0 = cap_exec(caps[0].as_str());
    let t_at_router = if c0 < 850 { 850 } else { c0 };
    let t_acting = t_at_router + cap_exec(caps[1].as_str());
    let c2 = cap_exec(caps[2].as_str());
    let t_deliver = t_acting + if c2 < 850 { 850 } else { c2 };
    let (t_f2, t_reassemble, end) = if m == Mode::Fragment {
        let c3 = cap_exec(caps[3].as_str());
        let d = t_deliver + if c3 < 850 { 850 } else { c3 };
        let c4 = cap_exec(caps[4].as_str());
        let o = d + if c4 < 850 { 850 } else { c4 };
        (d, o, o + cap_exec(caps[5].as_str()))
    } else {
        (t_deliver, t_deliver, t_deliver + cap_exec(caps[6].as_str()))
    };
    Sched { mode: m, t_at_router, t_acting, t_deliver, t_f2, t_reassemble, end: end + PAUSE, caps }
}

/// Both scenarios, fragmentation first.
pub fn scheds() -> (v: Vec<Sched>)
    ensures
        v@.len() == 2,
        sched_ok(v@[0], Mode::Fragment),
        sched_ok(v@[1], Mode::Pmtud),
        duration_spec() <= 2 * (7 * 4200 + PAUSE),
{
    vec![sched_of(Mode::Fragment), sched_of(Mode::Pmtud)]
}

/// Loop length (ms): both scenarios back to back.
pub fn duration() -> (d: u64)
    ensures
        d == duration_spec(),
{
    let v = scheds();
    v[0].end + v[1].end
}

/// Stage of a scenario.
#[derive(PartialEq, Eq, Structural, Clone, Copy, Debug)]
pub enum MtuStage {
    Sending,
    AtRouter,
    Acting,
    Delivering,
}

/// A packet in flight: label and time since it left.
pub struct Flight {
    pub label: String,
    pub elapsed: u64,
}

/// What the MTU sim shows at one moment.
pub struct MtuState {
    pub mode: Mode,
    pub stage: MtuStage,
    pub note: String,
    /// Status under the router.
    pub router_status: &'static str,
    /// Text after "outcome: ", and whether it is still dimmed.
    pub outcome: String,
    pub outcome_dim: bool,
    /// Packets in flight: sending, the ICMP reply, or the fragments.
    pub flights: Vec<Flight>,
}

pub open spec fn stage_spec(m: Mode, dt: nat) -> MtuStage {
    if dt < t_at_router(m) { MtuStage::Sending }
    else if dt < t_acting(m) { MtuStage::AtRouter }
    else if dt < t_deliver(m) { MtuStage::Acting }
    else { MtuStage::Delivering }
}

pub open spec fn note_spec(m: Mode, dt: nat) -> Seq<char> {
    match stage_spec(m, dt) {
        MtuStage::Sending => caption(m, 0),
        MtuStage::AtRouter => caption(m, 1),
        MtuStage::Acting => caption(m, 2),
        MtuStage::Delivering => if m == Mode::Pmtud { caption(m, 6) }
            else if dt >= t_reassemble(m) { caption(m, 5) } else if dt >= t_f2(m) { caption(m, 4) } else { caption(m, 3) },
    }
}

pub open spec fn router_status(m: Mode, st: MtuStage) -> Seq<char> {
    match st {
        MtuStage::AtRouter => "checking size"@,
        MtuStage::Acting => if m == Mode::Fragment { "fragmenting"@ } else { "dropping, DF set"@ },
        MtuStage::Delivering => if m == Mode::Fragment { "forwarded"@ } else { "notified sender"@ },
        MtuStage::Sending => "awaiting packet"@,
    }
}

pub open spec fn outcome_spec(m: Mode, st: MtuStage) -> Seq<char> {
    if st == MtuStage::Acting || st == MtuStage::Delivering {
        if m == Mode::Fragment {
            "split into "@ + mtu_text() + "B + "@ + rest_text() + "B"@
        } else {
            "dropped, ICMP \"Fragmentation Needed, MTU "@ + mtu_text() + "\""@
        }
    } else {
        "waiting"@
    }
}

/// Packets in flight as (label, elapsed): the packet to the router while
/// sending, ICMP back to the sender while the router acts in discovery
/// mode, and the fragments (the second once it has left) while delivering.
pub open spec fn flights_spec(m: Mode, dt: nat) -> Seq<(Seq<char>, int)> {
    match stage_spec(m, dt) {
        MtuStage::Sending => seq![(if m == Mode::Fragment { size_text() + "B"@ } else { size_text() + "B"@ + ", DF"@ }, dt as int)],
        MtuStage::AtRouter => seq![],
        MtuStage::Acting => if m == Mode::Fragment { seq![] } else { seq![("ICMP"@, dt - t_acting(m))] },
        MtuStage::Delivering => if m == Mode::Pmtud { seq![] }
            else if dt >= t_f2(m) { seq![(mtu_text() + "B"@, dt - t_deliver(m)), (rest_text() + "B"@, dt - t_f2(m))] }
            else { seq![(mtu_text() + "B"@, dt - t_deliver(m))] },
    }
}

pub open spec fn flight_view(f: Flight) -> (Seq<char>, int) {
    (f.label@, f.elapsed as int)
}

/// The MTU sim as a looping animation.
pub struct Mtu;

impl Mtu {
    pub fn duration(&self) -> (d: u64)
        ensures
            d == duration_spec(),
    {
        duration()
    }

    /// State at `t` (looped): the scenario in progress and its stage.
    pub fn state_at(&self, t: u64) -> (st: MtuState)
        ensures
            ({
                let tt = (t as nat) % duration_spec();
                let m = if tt < scenario_end(Mode::Fragment) { Mode::Fragment } else { Mode::Pmtud };
                let dt = if m == Mode::Fragment { tt } else { (tt - scenario_end(Mode::Fragment)) as nat };
                &&& st.mode == m
                &&& st.stage == stage_spec(m, dt)
                &&& st.note@ == note_spec(m, dt)
                &&& st.router_status@ == router_status(m, st.stage)
                &&& st.outcome@ == outcome_spec(m, st.stage)
                &&& st.outcome_dim == !(st.stage == MtuStage::Acting || st.stage == MtuStage::Delivering)
                &&& st.flights@.map_values(|f: Flight| flight_view(f)) == flights_spec(m, dt)
            }),
    {
        let v = scheds();
        let d = v[0].end + v[1].end;
        let tt = t % d;
        let si: usize = if tt < v[0].end { 0 } else { 1 };
        let dt = if si == 0 { tt } else { tt - v[0].end };
        let s = &v[si];
        let m = s.mode;
        let frag = m == Mode::Fragment;
        let stage = if dt < s.t_at_router { MtuStage::Sending } else if dt < s.t_acting { MtuStage::AtRouter }
            else if dt < s.t_deliver { MtuStage::Acting } else { MtuStage::Delivering };
        let ci: usize = match stage {
            MtuStage::Sending => 0,
            MtuStage::AtRouter => 1,
            MtuStage::Acting => 2,
            MtuStage::Delivering => if !frag { 6 } else if dt >= s.t_reassemble { 5 } else if dt >= s.t_f2 { 4 } else { 3 },
        };
        let mut note = String::new();
        push_str(&mut note, s.caps[ci].as_str());
        let router_status = match stage {
            MtuStage::AtRouter => "checking size",
            MtuStage::Acting => if frag { "fragmenting" } else { "dropping, DF set" },
            MtuStage::Delivering => if frag { "forwarded" } else { "notified sender" },
            MtuStage::Sending => "awaiting packet",
        };
        let acting = stage == MtuStage::Acting || stage == MtuStage::Delivering;
        let mut outcome = String::new();
        if acting {
            if frag {
                push_str(&mut outcome, "split into ");
                push_dec(&mut outcome, MTU);
                push_str(&mut outcome, "B + ");
                push_dec(&mut outcome, SIZE - MTU);
                push_str(&mut outcome, "B");
            } else {
                push_str(&mut outcome, "dropped, ICMP \"Fragmentation Needed, MTU ");
                push_dec(&mut outcome, MTU);
                push_str(&mut outcome, "\"");
            }
        } else {
            push_str(&mut outcome, "waiting");
        }
        let mut flights: Vec<Flight> = Vec::new();
        match stage {
            MtuStage::Sending => {
                let mut label = String::new();
                push_dec(&mut label, SIZE);
                push_str(&mut label, "B");
                if !frag {
                    push_str(&mut label, ", DF");
                }
                flights.push(Flight { label, elapsed: dt });
            },
            MtuStage::AtRouter => {},
            MtuStage::Acting => {
                if !frag {
                    let mut label = String::new();
                    push_str(&mut label, "ICMP");
                    flights.push(Flight { label, elapsed: dt - s.t_acting });
                }
            },
            MtuStage::Delivering => {
                if frag {
                    let mut l1 = String::new();
                    push_dec(&mut l1, MTU);
                    push_str(&mut l1, "B");
                    flights.push(Flight { label: l1, elapsed: dt - s.t_deliver });
                    if dt >= s.t_f2 {
                        let mut l2 = String::new();
                        push_dec(&mut l2, SIZE - MTU);
                        push_str(&mut l2, "B");
                        flights.push(Flight { label: l2, elapsed: dt - s.t_f2 });
                    }
                }
            },
        }
        proof {
            let ghost mm = m;
            let ghost dd = dt as nat;
            assert(stage == stage_spec(mm, dd));
            if stage == MtuStage::Delivering && frag && dt >= s.t_f2 {
                assert(flights@.len() == 2);
            }
            assert(flights@.map_values(|f: Flight| flight_view(f)) =~= flights_spec(mm, dd));
        }
        MtuState { mode: m, stage, note, router_status, outcome, outcome_dim: !acting, flights }
    }
}

} // verus!
