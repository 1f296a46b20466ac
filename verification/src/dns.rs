//! DNS sim: a cold lookup walks root, .org and wikipedia name servers; the
//! answer is cached at the resolver and on the device; later lookups are
//! served from those caches until the TTL runs out.
use vstd::prelude::*;
use crate::text::{byte_len, dec, lemma_utf8_len_bounds, push_dec, push_str, same_text, utf8_len};

verus! {

/// Flight time of one hop (ms).
pub const HOP_MS: u64 = 450;
pub const INTER_HOP: u64 = 120;
/// Time from one hop's departure to the next.
pub const HOP_GAP: u64 = 610;
pub const POST: u64 = 650;
pub const PHASE_HOLD: u64 = 1500;
pub const TTL_TICK_MS: u64 = 500;
pub const TTL_STEP: u32 = 300;
pub const TTL_START: u32 = 3600;
pub const END_PAUSE: u64 = 4200;

pub const NAME: &'static str = "en.wikipedia.org";
pub const ADDR: &'static str = "91.198.174.192";
pub const OPENING: &'static str = "One lookup walks the chain of delegations; every lookup after it, from this device or any other behind the same resolver, is answered from a cache, until the TTL runs out.";
pub const CAP_TTL0: &'static str = "TTL zero: device and resolver discard the record. The next lookup must walk the chain again, watch it repeat.";

/// Which cache an answer fills when it lands.
#[derive(PartialEq, Eq, Structural, Clone, Copy, Debug)]
pub enum Fill {
    Nothing,
    Resolver,
    Device,
}

/// One step of the story.
pub enum Step {
    /// A new phase begins, with its label.
    Phase(&'static str),
    /// A lookup answered locally, with its caption.
    Hit(&'static str),
    /// A message along `path` (node indices); an empty status keeps the
    /// previous caption.
    Flight { path: Vec<usize>, label: &'static str, fills: Fill, status: &'static str },
}

fn flight(path: Vec<usize>, label: &'static str, fills: Fill, status: &'static str) -> (s: Step)
    ensures
        s == (Step::Flight { path, label, fills, status }),
{
    Step::Flight { path, label, fills, status }
}

/// The story: a cold lookup, a lookup answered on the device, and one from
/// another device answered by the resolver.
pub fn steps() -> (v: Vec<Step>)
    ensures
        step_views(v@) == story(),
{
    let v = vec![
        Step::Phase("lookup 1, nothing cached"),
        flight(vec![1usize, 2, 3], NAME, Fill::Nothing, "No cache holds the name yet, so your device hands the question to its recursive resolver."),
        flight(vec![3usize, 4, 6], NAME, Fill::Nothing, "The root doesn't know the name. It knows exactly one thing, who runs .org, a referral, one step down the chain."),
        flight(vec![3usize, 4, 6], ".org referral", Fill::Nothing, ""),
        flight(vec![3usize, 4, 5, 7], NAME, Fill::Nothing, ".org doesn't know it either, but it knows who runs wikipedia.org."),
        flight(vec![3usize, 4, 5, 7], "wikipedia.org referral", Fill::Nothing, ""),
        flight(vec![3usize, 4, 5, 8], NAME, Fill::Nothing, "Wikipedia's own name server holds the actual record and answers, 91.198.174.192, cacheable for 3600 seconds."),
        flight(vec![3usize, 4, 5, 8], "answer, ttl 3600", Fill::Resolver, ""),
        flight(vec![1usize, 2, 3], ADDR, Fill::Device, "The resolver keeps a copy, and so does your device's operating system. Three round trips, not to be repeated while the TTL lasts."),
        flight(vec![1usize, 2, 5, 9], "TCP:443", Fill::Nothing, "DNS is done, name turned into number. The browser opens a TCP connection to the address it was given."),
        Step::Phase("lookup 2, answered on the device"),
        Step::Hit("The second lookup never leaves your machine, the OS answers from its own cache. No DNS packet on the wire at all."),
        flight(vec![1usize, 2, 5, 9], "TCP:443", Fill::Nothing, ""),
        Step::Phase("lookup 3, another device asks"),
        flight(vec![0usize, 2, 3], NAME, Fill::Nothing, "Another device behind the same resolver asks for the first time. Its own cache is empty but the resolver's isn't."),
        flight(vec![3usize, 2, 0], "cached answer", Fill::Nothing, "Root, .org, and Wikipedia's name server never hear about it. One walk of the chain, shared by everyone behind this resolver."),
    ];
    assert(step_views(v@) =~= story());
    v
}

/// A step as a value.
pub enum StepV {
    Phase(Seq<char>),
    Hit(Seq<char>),
    Flight { path: Seq<usize>, label: Seq<char>, fills: Fill, status: Seq<char> },
}

pub open spec fn step_view(s: Step) -> StepV {
    match s {
        Step::Phase(p) => StepV::Phase(p@),
        Step::Hit(c) => StepV::Hit(c@),
        Step::Flight { path, label, fills, status } => StepV::Flight { path: path@, label: label@, fills, status: status@ },
    }
}

pub open spec fn step_views(v: Seq<Step>) -> Seq<StepV> {
    v.map_values(|s: Step| step_view(s))
}

/// The story told by the sim.
pub open spec fn story() -> Seq<StepV> {
    seq![
        StepV::Phase("lookup 1, nothing cached"@),
        StepV::Flight { path: seq![1usize, 2, 3], label: NAME@, fills: Fill::Nothing,
            status: "No cache holds the name yet, so your device hands the question to its recursive resolver."@ },
        StepV::Flight { path: seq![3usize, 4, 6], label: NAME@, fills: Fill::Nothing,
            status: "The root doesn't know the name. It knows exactly one thing, who runs .org, a referral, one step down the chain."@ },
        StepV::Flight { path: seq![3usize, 4, 6], label: ".org referral"@, fills: Fill::Nothing, status: ""@ },
        StepV::Flight { path: seq![3usize, 4, 5, 7], label: NAME@, fills: Fill::Nothing,
            status: ".org doesn't know it either, but it knows who runs wikipedia.org."@ },
        StepV::Flight { path: seq![3usize, 4, 5, 7], label: "wikipedia.org referral"@, fills: Fill::Nothing, status: ""@ },
        StepV::Flight { path: seq![3usize, 4, 5, 8], label: NAME@, fills: Fill::Nothing,
            status: "Wikipedia's own name server holds the actual record and answers, 91.198.174.192, cacheable for 3600 seconds."@ },
        StepV::Flight { path: seq![3usize, 4, 5, 8], label: "answer, ttl 3600"@, fills: Fill::Resolver, status: ""@ },
        StepV::Flight { path: seq![1usize, 2, 3], label: ADDR@, fills: Fill::Device,
            status: "The resolver keeps a copy, and so does your device's operating system. Three round trips, not to be repeated while the TTL lasts."@ },
        StepV::Flight { path: seq![1usize, 2, 5, 9], label: "TCP:443"@, fills: Fill::Nothing,
            status: "DNS is done, name turned into number. The browser opens a TCP connection to the address it was given."@ },
        StepV::Phase("lookup 2, answered on the device"@),
        StepV::Hit("The second lookup never leaves your machine, the OS answers from its own cache. No DNS packet on the wire at all."@),
        StepV::Flight { path: seq![1usize, 2, 5, 9], label: "TCP:443"@, fills: Fill::Nothing, status: ""@ },
        StepV::Phase("lookup 3, another device asks"@),
        StepV::Flight { path: seq![0usize, 2, 3], label: NAME@, fills: Fill::Nothing,
            status: "Another device behind the same resolver asks for the first time. Its own cache is empty but the resolver's isn't."@ },
        StepV::Flight { path: seq![3usize, 2, 0], label: "cached answer"@, fills: Fill::Nothing,
            status: "Root, .org, and Wikipedia's name server never hear about it. One walk of the chain, shared by everyone behind this resolver."@ },
    ]
}

/// A step the story can hold: a flight has at least one hop between known
/// nodes, and captions are short enough to time.
pub open spec fn step_ok(s: StepV) -> bool {
    match s {
        StepV::Phase(_) => true,
        StepV::Hit(c) => c.len() <= 250,
        StepV::Flight { path, .. } => 2 <= path.len() <= 8 && forall|i: int| 0 <= i < path.len() ==> #[trigger] path[i] < 10,
    }
}

/// The story's running state: clock, caption, phase and cache contents.
pub struct Story {
    pub t: nat,
    pub note: Seq<char>,
    pub phase: Seq<char>,
    pub rc: bool,
    pub dc: bool,
}

/// One beat: from its time on, this is shown (until the next beat).
pub struct BeatV {
    pub t: nat,
    /// A hop in flight: (step index, hop index, departure).
    pub flight: Option<(int, int, nat)>,
    pub rc: bool,
    pub dc: bool,
    pub ttl: Option<nat>,
    pub phase: Seq<char>,
    pub note: Seq<char>,
}

pub open spec fn start_story() -> Story {
    Story { t: 0, note: OPENING@, phase: seq![], rc: false, dc: false }
}

pub open spec fn plain_beat(s: Story) -> BeatV {
    BeatV { t: s.t, flight: None, rc: s.rc, dc: s.dc, ttl: None, phase: s.phase, note: s.note }
}

/// Beats emitted by step `si` from story state `s`: a phase or hit emits
/// one; a flight emits one per hop (each `HOP_GAP` after the previous) and
/// one when the last hop lands, with any cache it fills.
pub open spec fn step_beats(s: Story, step: StepV, si: int) -> Seq<BeatV> {
    match step {
        StepV::Phase(p) => seq![plain_beat(Story { t: s.t, note: s.note, phase: p, rc: s.rc, dc: s.dc })],
        StepV::Hit(c) => seq![plain_beat(Story { t: s.t, note: c, phase: s.phase, rc: s.rc, dc: s.dc })],
        StepV::Flight { path, fills, status, .. } => {
            let note = if status.len() == 0 { s.note } else { status };
            let hops = (path.len() - 1) as nat;
            Seq::new(hops, |h: int| BeatV {
                t: (s.t + h * HOP_GAP) as nat,
                flight: Some((si, h, (s.t + h * HOP_GAP) as nat)),
                rc: s.rc,
                dc: s.dc,
                ttl: None,
                phase: s.phase,
                note,
            }).push(BeatV {
                t: (s.t + hops * HOP_GAP) as nat,
                flight: None,
                rc: s.rc || fills == Fill::Resolver,
                dc: s.dc || fills == Fill::Device,
                ttl: None,
                phase: s.phase,
                note,
            })
        },
    }
}

/// Story state after step `step`.
pub open spec fn after(s: Story, step: StepV) -> Story {
    match step {
        StepV::Phase(p) => Story { t: (s.t + PHASE_HOLD) as nat, note: s.note, phase: p, rc: s.rc, dc: s.dc },
        StepV::Hit(c) => Story { t: s.t + utf8_len(c) * 24, note: c, phase: s.phase, rc: s.rc, dc: s.dc },
        StepV::Flight { path, fills, status, .. } => Story {
            t: (s.t + (path.len() - 1) * HOP_GAP + POST) as nat,
            note: if status.len() == 0 { s.note } else { status },
            phase: s.phase,
            rc: s.rc || fills == Fill::Resolver,
            dc: s.dc || fills == Fill::Device,
        },
    }
}

/// State after the first `n` steps.
pub open spec fn story_at(steps: Seq<StepV>, n: int) -> Story
    decreases n,
{
    if n <= 0 { start_story() } else { after(story_at(steps, n - 1), steps[n - 1]) }
}

/// Beats of the first `n` steps.
pub open spec fn story_beats(steps: Seq<StepV>, n: int) -> Seq<BeatV>
    decreases n,
{
    if n <= 0 { seq![] } else { story_beats(steps, n - 1) + step_beats(story_at(steps, n - 1), steps[n - 1], n - 1) }
}

/// Once a cache holds the record it keeps it for the rest of the story.
pub proof fn lemma_caches_stay_filled(steps: Seq<StepV>, m: int, n: int)
    requires
        0 <= m <= n,
    ensures
        story_at(steps, m).rc ==> story_at(steps, n).rc,
        story_at(steps, m).dc ==> story_at(steps, n).dc,
    decreases n,
{
    if n > m {
        lemma_caches_stay_filled(steps, m, n - 1);
    }
}

/// Caption of a countdown beat.
pub open spec fn ttl_note(ttl: nat) -> Seq<char> {
    "TTL "@ + dec(ttl) + ": caches hold the record for "@ + NAME@ + "."@
}

/// Number of countdown beats before zero.
pub open spec fn ttl_ticks() -> nat {
    (TTL_START / TTL_STEP) as nat
}

/// The countdown from `s`: one beat per tick with the remaining TTL, then
/// the zero beat.
pub open spec fn ttl_beats(s: Story) -> Seq<BeatV> {
    Seq::new(ttl_ticks(), |k: int| BeatV {
        t: (s.t + k * TTL_TICK_MS) as nat,
        flight: None,
        rc: s.rc,
        dc: s.dc,
        ttl: Some((TTL_START - k * TTL_STEP) as nat),
        phase: "ttl"@,
        note: ttl_note((TTL_START - k * TTL_STEP) as nat),
    }).push(BeatV {
        t: (s.t + ttl_ticks() * TTL_TICK_MS) as nat,
        flight: None,
        rc: s.rc,
        dc: s.dc,
        ttl: Some(0),
        phase: "ttl"@,
        note: CAP_TTL0@,
    })
}

/// Loop length: the story, the countdown, the last tick and the pause.
pub open spec fn duration_of(steps: Seq<StepV>) -> nat {
    (story_at(steps, steps.len() as int).t + ttl_ticks() * TTL_TICK_MS + TTL_TICK_MS + END_PAUSE) as nat
}

/// Every beat of the loop, in time order.
pub open spec fn all_beats(steps: Seq<StepV>) -> Seq<BeatV> {
    story_beats(steps, steps.len() as int) + ttl_beats(story_at(steps, steps.len() as int))
}

/// A hop in flight within a beat.
#[derive(Clone, Copy)]
pub struct BeatFlight {
    pub step: usize,
    pub hop: usize,
    pub depart: u64,
}

/// One beat as computed.
pub struct Beat {
    pub t: u64,
    pub flight: Option<BeatFlight>,
    pub resolver_cached: bool,
    pub device_cached: bool,
    pub ttl: Option<u32>,
    pub phase: &'static str,
    pub note: String,
}

pub open spec fn beat_view(b: Beat) -> BeatV {
    BeatV {
        t: b.t as nat,
        flight: match b.flight { Some(f) => Some((f.step as int, f.hop as int, f.depart as nat)), None => None },
        rc: b.resolver_cached,
        dc: b.device_cached,
        ttl: match b.ttl { Some(x) => Some(x as nat), None => None },
        phase: b.phase@,
        note: b.note@,
    }
}

pub open spec fn views(v: Seq<Beat>) -> Seq<BeatV> {
    v.map_values(|b: Beat| beat_view(b))
}

proof fn lemma_story_bounds(steps: Seq<StepV>, n: int)
    requires
        0 <= n <= steps.len(),
        forall|i: int| 0 <= i < steps.len() ==> #[trigger] step_ok(steps[i]),
    ensures
        story_at(steps, n).t <= n * 25000,
    decreases n,
{
    if n > 0 {
        lemma_story_bounds(steps, n - 1);
        assert(step_ok(steps[n - 1]));
        if let StepV::Hit(c) = steps[n - 1] {
            lemma_utf8_len_bounds(c);
        }
    }
}

fn copy_text(s: &str) -> (r: String)
    ensures
        r@ == s@,
{
    let mut r = String::new();
    push_str(&mut r, s);
    r
}

/// Every beat of the loop for the given story, the countdown after it, and
/// the loop length.
pub fn beats(steps: &Vec<Step>) -> (r: (Vec<Beat>, u64))
    requires
        steps@.len() <= 100,
        forall|i: int| 0 <= i < steps@.len() ==> #[trigger] step_ok(step_views(steps@)[i]),
    ensures
        views(r.0@) == all_beats(step_views(steps@)),
        r.1 == duration_of(step_views(steps@)),
{
    let ghost ss = step_views(steps@);
    let mut v: Vec<Beat> = Vec::new();
    let mut t: u64 = 0;
    let mut note = copy_text(OPENING);
    let mut phase: &'static str = "";
    let mut rc = false;
    let mut dc = false;
    let mut i: usize = 0;
    proof {
        reveal_strlit("");
        assert(views(v@) =~= story_beats(ss, 0));
        assert(phase@ =~= Seq::<char>::empty());
        assert(story_at(ss, 0) == (Story { t: t as nat, note: note@, phase: phase@, rc, dc }));
    }
    while i < steps.len()
        invariant
            i <= steps@.len() <= 100,
            ss == step_views(steps@),
            forall|k: int| 0 <= k < steps@.len() ==> #[trigger] step_ok(ss[k]),
            story_at(ss, i as int) == (Story { t: t as nat, note: note@, phase: phase@, rc, dc }),
            views(v@) == story_beats(ss, i as int),
            t <= i * 25000,
        decreases steps@.len() - i,
    {
        let ghost s0 = Story { t: t as nat, note: note@, phase: phase@, rc, dc };
        let ghost v0 = views(v@);
        proof {
            lemma_story_bounds(ss, i as int + 1);
            assert(step_ok(ss[i as int]));
        }
        match &steps[i] {
            Step::Phase(p) => {
                phase = *p;
                v.push(Beat { t, flight: None, resolver_cached: rc, device_cached: dc, ttl: None, phase, note: copy_text(note.as_str()) });
                assert(views(v@) =~= v0.push(beat_view(v@.last())));
                assert(views(v@) =~= v0 + step_beats(s0, ss[i as int], i as int));
                t = t + PHASE_HOLD;
            },
            Step::Hit(c) => {
                proof {
                    lemma_utf8_len_bounds(c@);
                }
                note = copy_text(*c);
                v.push(Beat { t, flight: None, resolver_cached: rc, device_cached: dc, ttl: None, phase, note: copy_text(note.as_str()) });
                assert(views(v@) =~= v0.push(beat_view(v@.last())));
                assert(views(v@) =~= v0 + step_beats(s0, ss[i as int], i as int));
                t = t + byte_len(*c) as u64 * 24;
            },
            Step::Flight { path, label: _, fills, status } => {
                proof {
                    lemma_utf8_len_bounds(status@);
                }
                if byte_len(*status) != 0 {
                    note = copy_text(*status);
                }
                let n = path.len() - 1;
                let mut depart = t;
                let mut h: usize = 0;
                while h < n
                    invariant
                        h <= n,
                        n + 1 == path@.len(),
                        path@.len() <= 8,
                        t <= i * 25000,
                        i < 100,
                        depart == t + h * HOP_GAP,
                        views(v@) == v0 + Seq::new(h as nat, |k: int| BeatV {
                            t: (t + k * HOP_GAP) as nat,
                            flight: Some((i as int, k, (t + k * HOP_GAP) as nat)),
                            rc,
                            dc,
                            ttl: None,
                            phase: phase@,
                            note: note@,
                        }),
                    decreases n - h,
                {
                    let ghost before = views(v@);
                    v.push(Beat {
                        t: depart,
                        flight: Some(BeatFlight { step: i, hop: h, depart }),
                        resolver_cached: rc,
                        device_cached: dc,
                        ttl: None,
                        phase,
                        note: copy_text(note.as_str()),
                    });
                    assert(views(v@) =~= before.push(beat_view(v@.last())));
                    depart = depart + HOP_GAP;
                    h = h + 1;
                    assert(views(v@) =~= v0 + Seq::new(h as nat, |k: int| BeatV {
                        t: (t + k * HOP_GAP) as nat,
                        flight: Some((i as int, k, (t + k * HOP_GAP) as nat)),
                        rc,
                        dc,
                        ttl: None,
                        phase: phase@,
                        note: note@,
                    }));
                }
                let ghost mid = views(v@);
                if *fills == Fill::Resolver {
                    rc = true;
                } else if *fills == Fill::Device {
                    dc = true;
                }
                v.push(Beat { t: depart, flight: None, resolver_cached: rc, device_cached: dc, ttl: None, phase, note: copy_text(note.as_str()) });
                proof {
                    assert(views(v@) =~= mid.push(beat_view(v@.last())));
                    let sb = step_beats(s0, ss[i as int], i as int);
                    assert(sb.len() == n + 1);
                    assert(sb.drop_last() =~= Seq::new(n as nat, |k: int| BeatV {
                        t: (t + k * HOP_GAP) as nat,
                        flight: Some((i as int, k, (t + k * HOP_GAP) as nat)),
                        rc: s0.rc,
                        dc: s0.dc,
                        ttl: None,
                        phase: phase@,
                        note: note@,
                    }));
                    assert(sb.last() == beat_view(v@.last()));
                    assert(views(v@) =~= v0 + sb);
                }
                t = depart + POST;
            },
        }
        i = i + 1;
    }
    let ghost s_end = Story { t: t as nat, note: note@, phase: phase@, rc, dc };
    let ghost v_story = views(v@);
    let mut ttl: u32 = TTL_START;
    let mut k: u64 = 0;
    while ttl > 0
        invariant
            k <= 12,
            ttl == TTL_START - k * TTL_STEP,
            t == s_end.t + k * TTL_TICK_MS,
            s_end.t <= 2500000,
            rc == s_end.rc,
            dc == s_end.dc,
            views(v@) == v_story + ttl_beats(s_end).take(k as int),
        decreases ttl,
    {
        let mut n = String::new();
        push_str(&mut n, "TTL ");
        push_dec(&mut n, ttl as u64);
        push_str(&mut n, ": caches hold the record for ");
        push_str(&mut n, NAME);
        push_str(&mut n, ".");
        let ghost before = views(v@);
        v.push(Beat { t, flight: None, resolver_cached: rc, device_cached: dc, ttl: Some(ttl), phase: "ttl", note: n });
        assert(views(v@) =~= before.push(beat_view(v@.last())));
        assert(ttl_beats(s_end).take(k as int + 1) =~= ttl_beats(s_end).take(k as int).push(ttl_beats(s_end)[k as int]));
        t = t + TTL_TICK_MS;
        ttl = ttl - TTL_STEP;
        k = k + 1;
    }
    let ghost before = views(v@);
    v.push(Beat { t, flight: None, resolver_cached: rc, device_cached: dc, ttl: Some(0), phase: "ttl", note: copy_text(CAP_TTL0) });
    proof {
        assert(views(v@) =~= before.push(beat_view(v@.last())));
        assert(ttl_beats(s_end) =~= ttl_beats(s_end).take(12).push(ttl_beats(s_end)[12]));
        assert(views(v@) =~= all_beats(ss));
    }
    let d = t + TTL_TICK_MS + END_PAUSE;
    (v, d)
}

/// Every step of the story can be held.
pub proof fn lemma_story_ok()
    ensures
        forall|i: int| 0 <= i < story().len() ==> #[trigger] step_ok(story()[i]),
{
    reveal_strlit("The second lookup never leaves your machine, the OS answers from its own cache. No DNS packet on the wire at all.");
    assert(step_ok(story()[11]));
}

/// Loop length (ms).
pub fn duration() -> (d: u64)
    ensures
        d == duration_of(story()),
{
    let st = steps();
    proof {
        lemma_story_ok();
    }
    let (_, d) = beats(&st);
    d
}

/// A message in flight: its label, the hop's endpoints and the time since
/// it left (shown while under `HOP_MS`).
pub struct DnsPacket {
    pub label: &'static str,
    pub from: usize,
    pub to: usize,
    pub elapsed: u64,
}

/// What the DNS sim shows at one moment.
pub struct DnsState {
    /// Index of the beat in progress.
    pub beat: usize,
    pub note: String,
    /// Top-left label: the phase, or the countdown.
    pub phase_text: String,
    pub resolver_status: Option<String>,
    pub device_status: Option<String>,
    pub packet: Option<DnsPacket>,
}

/// Status of a node whose cache holds the record.
pub open spec fn cache_text() -> Seq<char> {
    "cache: "@ + NAME@ + " → "@ + ADDR@
}

pub open spec fn status_of(on: bool) -> Option<Seq<char>> {
    if on { Some(cache_text()) } else { None }
}

pub open spec fn opt_view(o: Option<String>) -> Option<Seq<char>> {
    match o { Some(s) => Some(s@), None => None }
}

/// The hop in flight during beat `b` at `tt`, as (label, from, to, elapsed).
pub open spec fn packet_spec(b: BeatV, tt: nat) -> Option<(Seq<char>, int, int, int)> {
    match b.flight {
        Some((si, h, dep)) => {
            let e = if tt >= dep + 40 { tt - dep - 40 } else { 0 };
            if e < HOP_MS {
                match story()[si] {
                    StepV::Flight { path, label, .. } => Some((label, path[h] as int, path[h + 1] as int, e)),
                    _ => None,
                }
            } else {
                None
            }
        },
        None => None,
    }
}

pub open spec fn packet_view(p: Option<DnsPacket>) -> Option<(Seq<char>, int, int, int)> {
    match p { Some(q) => Some((q.label@, q.from as int, q.to as int, q.elapsed as int)), None => None }
}

/// The DNS sim as a looping animation.
pub struct Dns;

impl Dns {
    pub fn duration(&self) -> (d: u64)
        ensures
            d == duration_of(story()),
    {
        duration()
    }

    /// State at `t` (looped): the last beat at or before `t`.
    pub fn state_at(&self, t: u64) -> (st: DnsState)
        ensures
            ({
                let bs = all_beats(story());
                let tt = (t as nat) % duration_of(story());
                let j = st.beat as int;
                let b = bs[j];
                &&& 0 <= j < bs.len()
                &&& b.t <= tt
                &&& (j + 1 < bs.len() ==> tt < bs[j + 1].t)
                &&& st.note@ == b.note
                &&& st.phase_text@ == (if b.phase == "ttl"@ {
                        "ttl countdown: "@ + dec(match b.ttl { Some(x) => x, None => 0 })
                    } else { b.phase })
                &&& opt_view(st.resolver_status) == status_of(b.rc)
                &&& opt_view(st.device_status) == status_of(b.dc)
                &&& packet_view(st.packet) == packet_spec(b, tt)
            }),
    {
        let steps = steps();
        proof {
            lemma_story_ok();
        }
        let (bs, d) = beats(&steps);
        let ghost bv = views(bs@);
        assert(bv == all_beats(story()));
        proof {
            lemma_first_beat(story(), 16);
            assert(bv[0] == story_beats(story(), 16)[0]);
        }
        let tt = t % d;
        let mut starts: Vec<u64> = Vec::new();
        let mut k: usize = 0;
        while k < bs.len()
            invariant
                k <= bs@.len(),
                bv == views(bs@),
                bv.len() > 0,
                starts@.len() == k,
                forall|q: int| 0 <= q < k ==> #[trigger] starts@[q] == bs@[q].t,
            decreases bs@.len() - k,
        {
            starts.push(bs[k].t);
            k = k + 1;
        }
        let j = crate::schedule::stage_index(&starts, tt);
        proof {
            assert(bv[j as int].t == starts@[j as int]);
            if j + 1 < bv.len() {
                assert(starts@[j + 1] > tt);
                assert(bv[j + 1].t == starts@[j + 1]);
            }
        }
        let b = &bs[j];
        assert(beat_view(*b) == bv[j as int]);
        let mut note = String::new();
        push_str(&mut note, b.note.as_str());
        let mut phase_text = String::new();
        if same_text(b.phase, "ttl") {
            push_str(&mut phase_text, "ttl countdown: ");
            push_dec(&mut phase_text, match b.ttl { Some(x) => x as u64, None => 0 });
        } else {
            push_str(&mut phase_text, b.phase);
        }
        let resolver_status = if b.resolver_cached { Some(cache_string()) } else { None };
        let device_status = if b.device_cached { Some(cache_string()) } else { None };
        let packet = match b.flight {
            Some(f) => {
                let e = if tt >= f.depart && tt - f.depart >= 40 { tt - f.depart - 40 } else { 0 };
                if e < HOP_MS {
                    proof {
                        lemma_beat_flights(f.step as int, f.hop as int, f.depart as nat, j as int);
                    }
                    match &steps[f.step] {
                        Step::Flight { path, label, .. } => Some(DnsPacket { label: *label, from: path[f.hop], to: path[f.hop + 1], elapsed: e }),
                        _ => None,
                    }
                } else {
                    None
                }
            },
            None => None,
        };
        DnsState { beat: j, note, phase_text, resolver_status, device_status, packet }
    }
}

fn cache_string() -> (s: String)
    ensures
        s@ == cache_text(),
{
    let mut s = String::new();
    push_str(&mut s, "cache: ");
    push_str(&mut s, NAME);
    push_str(&mut s, " → ");
    push_str(&mut s, ADDR);
    s
}

/// The story starts with a beat at time zero.
proof fn lemma_first_beat(ss: Seq<StepV>, n: int)
    requires
        1 <= n <= ss.len(),
        step_ok(ss[0]),
    ensures
        story_beats(ss, n).len() >= 1,
        story_beats(ss, n)[0].t == 0,
    decreases n,
{
    if n > 1 {
        lemma_first_beat(ss, n - 1);
        assert(story_beats(ss, n)[0] == story_beats(ss, n - 1)[0]);
    } else {
        assert(story_beats(ss, 0).len() == 0);
        assert(story_beats(ss, 1) =~= step_beats(start_story(), ss[0], 0));
    }
}

/// A beat with a hop in flight names a flight step of the story and a hop
/// that has a next node.
proof fn lemma_beat_flights(si: int, h: int, dep: nat, j: int)
    requires
        0 <= j < all_beats(story()).len(),
        all_beats(story())[j].flight == Some((si, h, dep)),
    ensures
        0 <= si < story().len(),
        story()[si] matches StepV::Flight { path, .. } && 0 <= h && h + 1 < path.len(),
{
    lemma_story_ok();
    let ss = story();
    lemma_story_beats_flights(ss, ss.len() as int, j);
    assert(ttl_beats(story_at(ss, ss.len() as int)).len() == ttl_ticks() + 1);
}

proof fn lemma_story_beats_flights(ss: Seq<StepV>, n: int, j: int)
    requires
        0 <= n <= ss.len(),
        forall|i: int| 0 <= i < ss.len() ==> #[trigger] step_ok(ss[i]),
    ensures
        0 <= j < story_beats(ss, n).len() ==> match story_beats(ss, n)[j].flight {
            Some((si, h, dep)) => 0 <= si < n && (ss[si] matches StepV::Flight { path, .. } && 0 <= h && h + 1 < path.len()),
            None => true,
        },
        (all_beats(ss).len() > story_beats(ss, ss.len() as int).len()),
        forall|q: int| story_beats(ss, ss.len() as int).len() <= q < all_beats(ss).len() ==> (#[trigger] all_beats(ss)[q]).flight is None,
    decreases n,
{
    let pre = story_beats(ss, ss.len() as int);
    assert forall|q: int| pre.len() <= q < all_beats(ss).len() implies (#[trigger] all_beats(ss)[q]).flight is None by {
        assert(all_beats(ss)[q] == ttl_beats(story_at(ss, ss.len() as int))[q - pre.len()]);
    }
    if n > 0 {
        lemma_story_beats_flights(ss, n - 1, j);
        let prev = story_beats(ss, n - 1);
        if prev.len() <= j < story_beats(ss, n).len() {
            assert(story_beats(ss, n)[j] == step_beats(story_at(ss, n - 1), ss[n - 1], n - 1)[j - prev.len()]);
            assert(step_ok(ss[n - 1]));
        } else if 0 <= j < prev.len() {
            assert(story_beats(ss, n)[j] == prev[j]);
        }
    }
}

proof fn lemma_story_dc(k: int)
    requires
        9 <= k <= story().len(),
    ensures
        story_at(story(), k).dc,
    decreases k,
{
    if k > 9 {
        lemma_story_dc(k - 1);
    } else {
        assert(story()[8] matches StepV::Flight { fills: Fill::Device, .. });
    }
}

proof fn lemma_story_phase(k: int)
    requires
        1 <= k <= 10,
    ensures
        story_at(story(), k).phase == "lookup 1, nothing cached"@,
    decreases k,
{
    if k > 1 {
        lemma_story_phase(k - 1);
        assert(story()[k - 1] is Flight);
    } else {
        assert(story()[0] == StepV::Phase("lookup 1, nothing cached"@));
    }
}

/// Every beat of the story is still in the first lookup or shows the
/// device cache filled.
proof fn lemma_beats_first_or_cached(n: int)
    requires
        0 <= n <= story().len(),
    ensures
        forall|j: int| 0 <= j < story_beats(story(), n).len() ==>
            (#[trigger] story_beats(story(), n)[j]).phase == "lookup 1, nothing cached"@
                || story_beats(story(), n)[j].dc,
        forall|j: int| 0 <= j < story_beats(story(), n).len() ==> (#[trigger] story_beats(story(), n)[j]).ttl is None,
    decreases n,
{
    if n > 0 {
        lemma_beats_first_or_cached(n - 1);
        let k = n - 1;
        let prev = story_beats(story(), k);
        let st = story_at(story(), k);
        let new = step_beats(st, story()[k], k);
        if k >= 9 {
            lemma_story_dc(k);
        }
        if 1 <= k <= 9 {
            lemma_story_phase(k);
            assert(story()[k] is Flight);
        }
        if k == 0 {
            assert(story()[0] == StepV::Phase("lookup 1, nothing cached"@));
        }
        assert forall|j: int| 0 <= j < story_beats(story(), n).len() implies
            (#[trigger] story_beats(story(), n)[j]).phase == "lookup 1, nothing cached"@
                || story_beats(story(), n)[j].dc by {
            if j < prev.len() {
                assert(story_beats(story(), n)[j] == prev[j]);
            } else {
                let b = new[j - prev.len()];
                assert(story_beats(story(), n)[j] == b);
                match story()[k] {
                    StepV::Flight { path, fills, status, .. } => {
                        let hops = (path.len() - 1) as nat;
                        if j - prev.len() < hops {
                            assert(b.phase == st.phase && b.dc == st.dc);
                        } else {
                            assert(b.phase == st.phase && b.dc == (st.dc || fills == Fill::Device));
                        }
                    },
                    _ => {},
                }
            }
        }
        assert forall|j: int| 0 <= j < story_beats(story(), n).len() implies (#[trigger] story_beats(story(), n)[j]).ttl is None by {
            if j < prev.len() {
                assert(story_beats(story(), n)[j] == prev[j]);
            } else {
                assert(story_beats(story(), n)[j] == new[j - prev.len()]);
            }
        }
    }
}

proof fn lemma_beats_prefix(m: int, n: int)
    requires
        0 <= m <= n <= story().len(),
    ensures
        story_beats(story(), m).len() <= story_beats(story(), n).len(),
        forall|j: int| 0 <= j < story_beats(story(), m).len() ==> #[trigger] story_beats(story(), n)[j] == story_beats(story(), m)[j],
    decreases n,
{
    if n > m {
        lemma_beats_prefix(m, n - 1);
        assert forall|j: int| 0 <= j < story_beats(story(), m).len() implies #[trigger] story_beats(story(), n)[j] == story_beats(story(), m)[j] by {
            assert(story_beats(story(), n)[j] == story_beats(story(), n - 1)[j]);
        }
    }
}

proof fn lemma_first_beat_cold(n: int)
    requires
        1 <= n <= story().len(),
    ensures
        story_beats(story(), n).len() >= 1,
        !story_beats(story(), n)[0].dc,
        !story_beats(story(), n)[0].rc,
    decreases n,
{
    lemma_story_ok();
    if n > 1 {
        lemma_first_beat_cold(n - 1);
        assert(story_beats(story(), n)[0] == story_beats(story(), n - 1)[0]);
    } else {
        assert(story_beats(story(), 0).len() == 0);
        assert(story()[0] == StepV::Phase("lookup 1, nothing cached"@));
        assert(story_beats(story(), 1) =~= step_beats(start_story(), story()[0], 0));
    }
}

/// The device cache over the loop: nothing is cached when the loop starts;
/// the answer delivered to the device fills its cache, so every moment of
/// the second lookup ("answered on the device") and of the TTL countdown
/// shows the cached record on the device (and on the resolver during the
/// countdown), which `Dns::state_at` reports as `device_status`.
pub proof fn lemma_device_cache_serves_lookup_two()
    ensures
        !all_beats(story())[0].dc,
        !all_beats(story())[0].rc,
        forall|j: int| 0 <= j < all_beats(story()).len()
            && (#[trigger] all_beats(story())[j]).phase == "lookup 2, answered on the device"@
            ==> all_beats(story())[j].dc,
        forall|j: int| 0 <= j < all_beats(story()).len() && (#[trigger] all_beats(story())[j]).ttl is Some
            ==> all_beats(story())[j].dc && all_beats(story())[j].rc,
        exists|j: int| 0 <= j < all_beats(story()).len()
            && (#[trigger] all_beats(story())[j]).phase == "lookup 2, answered on the device"@,
{
    let ss = story();
    let n = ss.len() as int;
    let pre = story_beats(ss, n);
    let end = story_at(ss, n);
    lemma_first_beat_cold(n);
    assert(all_beats(ss)[0] == pre[0]);
    lemma_beats_first_or_cached(n);
    lemma_story_dc(n);
    reveal_strlit("lookup 1, nothing cached");
    reveal_strlit("lookup 2, answered on the device");
    assert("lookup 1, nothing cached"@[7] != "lookup 2, answered on the device"@[7]);
    assert(end.rc) by {
        assert(story()[7] matches StepV::Flight { fills: Fill::Resolver, .. });
        assert(story_at(ss, 8).rc);
        lemma_caches_stay_filled(ss, 8, n);
    }
    assert forall|j: int| 0 <= j < all_beats(ss).len() && (#[trigger] all_beats(ss)[j]).phase == "lookup 2, answered on the device"@
        implies all_beats(ss)[j].dc by {
        if j < pre.len() {
            assert(all_beats(ss)[j] == pre[j]);
        } else {
            assert(all_beats(ss)[j] == ttl_beats(end)[j - pre.len()]);
        }
    }
    assert forall|j: int| 0 <= j < all_beats(ss).len() && (#[trigger] all_beats(ss)[j]).ttl is Some
        implies all_beats(ss)[j].dc && all_beats(ss)[j].rc by {
        if j < pre.len() {
            assert(all_beats(ss)[j] == pre[j]);
        } else {
            assert(all_beats(ss)[j] == ttl_beats(end)[j - pre.len()]);
        }
    }
    let k = story_beats(ss, 10).len() as int;
    lemma_beats_prefix(10, 11);
    lemma_beats_prefix(11, n);
    assert(ss[10] == StepV::Phase("lookup 2, answered on the device"@));
    assert(story_beats(ss, 11) =~= story_beats(ss, 10) + step_beats(story_at(ss, 10), ss[10], 10));
    assert(story_beats(ss, 11)[k].phase == "lookup 2, answered on the device"@);
    assert(all_beats(ss)[k] == pre[k]);
}

proof fn lemma_story_cold(k: int)
    requires
        0 <= k <= 8,
    ensures
        !story_at(story(), k).dc,
    decreases k,
{
    if k > 0 {
        lemma_story_cold(k - 1);
        assert(!(story()[k - 1] matches StepV::Flight { fills: Fill::Device, .. }));
    }
}

proof fn lemma_story_later_phase(k: int)
    requires
        11 <= k <= story().len(),
    ensures
        story_at(story(), k).phase == "lookup 2, answered on the device"@
            || story_at(story(), k).phase == "lookup 3, another device asks"@,
    decreases k,
{
    if k > 11 {
        lemma_story_later_phase(k - 1);
    }
}

/// A beat with a hop in flight shows the cache and phase of the story as
/// its flight step began.
proof fn lemma_flight_beats(n: int)
    requires
        0 <= n <= story().len(),
    ensures
        forall|j: int| 0 <= j < story_beats(story(), n).len() ==>
            ((#[trigger] story_beats(story(), n)[j]).flight matches Some((si, h, d)) ==> {
                &&& 0 <= si < n
                &&& story()[si] is Flight
                &&& story_beats(story(), n)[j].dc == story_at(story(), si).dc
                &&& story_beats(story(), n)[j].phase == story_at(story(), si).phase
            }),
    decreases n,
{
    if n > 0 {
        lemma_flight_beats(n - 1);
        let k = n - 1;
        let prev = story_beats(story(), k);
        let st = story_at(story(), k);
        let new = step_beats(st, story()[k], k);
        assert forall|j: int| 0 <= j < story_beats(story(), n).len() implies
            ((#[trigger] story_beats(story(), n)[j]).flight matches Some((si, h, d)) ==> {
                &&& 0 <= si < n
                &&& story()[si] is Flight
                &&& story_beats(story(), n)[j].dc == story_at(story(), si).dc
                &&& story_beats(story(), n)[j].phase == story_at(story(), si).phase
            }) by {
            if j < prev.len() {
                assert(story_beats(story(), n)[j] == prev[j]);
            } else {
                let b = new[j - prev.len()];
                assert(story_beats(story(), n)[j] == b);
                match story()[k] {
                    StepV::Flight { path, .. } => {
                        let hops = (path.len() - 1) as nat;
                        if j - prev.len() < hops {
                            assert(b.flight == Some((k, j - prev.len(), (st.t + (j - prev.len()) * HOP_GAP) as nat)));
                        } else {
                            assert(b.flight is None);
                        }
                    },
                    _ => {},
                }
            }
        }
    }
}

/// While the first lookup asks for the name, the device holds nothing:
/// every beat of the first lookup with a question for the name in flight
/// shows no device cache (the cache is filled only by the answer).
pub proof fn lemma_first_lookup_uncached()
    ensures
        forall|j: int| 0 <= j < all_beats(story()).len()
            && (#[trigger] all_beats(story())[j]).phase == "lookup 1, nothing cached"@
            && (all_beats(story())[j].flight matches Some((si, h, d))
                && story()[si] matches StepV::Flight { label, .. } && label == NAME@)
            ==> !all_beats(story())[j].dc,
{
    let ss = story();
    let n = ss.len() as int;
    let pre = story_beats(ss, n);
    lemma_flight_beats(n);
    lemma_story_ok();
    reveal_strlit("lookup 1, nothing cached");
    reveal_strlit("lookup 2, answered on the device");
    reveal_strlit("lookup 3, another device asks");
    reveal_strlit("TCP:443");
    reveal_strlit("en.wikipedia.org");
    assert("lookup 1, nothing cached"@[7] != "lookup 2, answered on the device"@[7]);
    assert("lookup 1, nothing cached"@[7] != "lookup 3, another device asks"@[7]);
    assert("TCP:443"@ != NAME@) by {
        assert("TCP:443"@[0] != NAME@[0]);
    }
    assert forall|j: int| 0 <= j < all_beats(ss).len()
        && (#[trigger] all_beats(ss)[j]).phase == "lookup 1, nothing cached"@
        && (all_beats(ss)[j].flight matches Some((si, h, d))
            && ss[si] matches StepV::Flight { label, .. } && label == NAME@)
        implies !all_beats(ss)[j].dc by {
        if j < pre.len() {
            assert(all_beats(ss)[j] == pre[j]);
            match pre[j].flight {
                Some((si, _, _)) => {
                    if si >= 11 {
                        lemma_story_later_phase(si);
                    } else if si <= 8 {
                        lemma_story_cold(si);
                    }
                },
                None => {},
            }
        } else {
            assert(all_beats(ss)[j] == ttl_beats(story_at(ss, n))[j - pre.len()]);
        }
    }
}

} // verus!
