//! Message-journey sim: one message's trip in seven chapters, across the
//! room, under the street, into the data center, across the ocean, the far
//! side, and a summary. Each travelling chapter moves the message over a few
//! legs of the route; the nodes light up as it passes them.
use vstd::prelude::*;
use crate::text::push_str;

verus! {

/// Number of chapters and of nodes on the route.
pub const CHAPTERS: usize = 7;
pub const NODES: usize = 10;
/// Loop length: the chapters' durations summed.
pub const TOTAL: u64 = 31200;

pub open spec fn chapter_dur(i: int) -> nat {
    if i == 0 { 4200 } else if i == 1 { 3400 } else if i == 2 { 3800 } else if i == 3 { 4400 }
    else if i == 4 { 5200 } else if i == 5 { 4600 } else { 5600 }
}

pub open spec fn chapter_label(i: int) -> Seq<char> {
    if i == 0 { "you send a message"@ } else if i == 1 { "across the room"@ } else if i == 2 { "under your street"@ }
    else if i == 3 { "into the app's data center"@ } else if i == 4 { "across the ocean"@ } else if i == 5 { "the far side"@ }
    else { "the route it took"@ }
}

pub open spec fn chapter_note(i: int) -> Seq<char> {
    if i == 0 { "It goes to another continent, and the reply lands before you have put the phone down."@ }
    else if i == 1 { "The bytes become a radio wave, and cross the room to your router."@ }
    else if i == 2 { "Voltage steps on copper, until the cabinet turns them into light."@ }
    else if i == 3 { "The message stops at the app's data center, a few hundred kilometres from your phone."@ }
    else if i == 4 { "6,600 km of glass on the sea floor, laid by a consortium. The app's company only leases fibre pairs inside it."@ }
    else if i == 5 { "Inland, out to a tower, and back into radio for the last kilometre."@ }
    else { "None of the companies along the way coordinated for this message, and none of them knows the whole path it took."@ }
}

/// The legs of the route travelled in chapter `i`.
pub open spec fn segs(i: int) -> Seq<usize> {
    if i == 1 { seq![0usize] } else if i == 2 { seq![1usize, 2] } else if i == 3 { seq![3usize, 4] }
    else if i == 4 { seq![5usize] } else if i == 5 { seq![6usize, 7, 8] } else { seq![] }
}

/// Horizontal stops of chapter `i`'s legs on the node line (px), one more than its legs.
pub open spec fn xs(i: int) -> Seq<u64> {
    if i == 1 { seq![190u64, 770] } else if i == 2 || i == 3 { seq![130u64, 480, 830] }
    else if i == 4 { seq![90u64, 870] } else if i == 5 { seq![110u64, 390, 660, 890] } else { seq![] }
}

/// Medium of leg `l`: radio for the first and last, copper for the street,
/// fibre in between.
pub open spec fn medium(l: int) -> Seq<char> {
    if l == 0 || l == 8 { "radio"@ } else if l == 1 { "copper"@ } else { "fiber"@ }
}

pub open spec fn chapter_start(i: int) -> nat
    decreases i,
{
    if i <= 0 { 0 } else { chapter_start(i - 1) + chapter_dur(i - 1) }
}

/// The message has passed stop `b` at `dt` into chapter `i`: its position
/// `x0 + (0.06 + 0.84 dt / dur) (x1 - x0)` is at or before `b`, scaled by
/// `100 dur`.
pub open spec fn before_stop(i: int, dt: nat, b: nat) -> bool {
    let x0 = xs(i)[0] as int;
    let x1 = xs(i).last() as int;
    let dur = chapter_dur(i) as int;
    100 * dur * x0 + (6 * dur + 84 * dt) * (x1 - x0) <= 100 * dur * b
}

/// The first leg from `k` on whose end the message has not passed, or the last.
pub open spec fn leg_from(i: int, dt: nat, k: int) -> int
    decreases segs(i).len() - k,
{
    if k >= segs(i).len() - 1 || before_stop(i, dt, xs(i)[k + 1] as nat) { k } else { leg_from(i, dt, k + 1) }
}

/// Route leg (index into all nine) of chapter `i` at `dt`, if it travels.
pub open spec fn leg_at(i: int, dt: nat) -> Option<int> {
    if segs(i).len() == 0 { None } else { Some(segs(i)[leg_from(i, dt, 0)] as int) }
}

/// `n` copies of `a` followed by `m` copies of `b`.
pub open spec fn marks(a: Seq<char>, b: Seq<char>, n: nat, m: nat) -> Seq<char>
    decreases n + m,
{
    if n > 0 { a + marks(a, b, (n - 1) as nat, m) } else if m > 0 { b + marks(a, b, 0, (m - 1) as nat) } else { seq![] }
}

/// Chapter dots: the current one filled.
pub open spec fn dots_row(ci: int, n: int) -> Seq<char>
    decreases n,
{
    if n <= 0 { seq![] } else { dots_row(ci, n - 1) + if n - 1 == ci { "◉"@ } else { "·"@ } }
}

fn chapter_dur_exec(i: usize) -> (d: u64)
    requires
        i < 7,
    ensures
        d == chapter_dur(i as int),
{
    if i == 0 { 4200 } else if i == 1 { 3400 } else if i == 2 { 3800 } else if i == 3 { 4400 }
    else if i == 4 { 5200 } else if i == 5 { 4600 } else { 5600 }
}

fn chapter_label_exec(i: usize) -> (s: &'static str)
    requires
        i < 7,
    ensures
        s@ == chapter_label(i as int),
{
    if i == 0 { "you send a message" } else if i == 1 { "across the room" } else if i == 2 { "under your street" }
    else if i == 3 { "into the app's data center" } else if i == 4 { "across the ocean" } else if i == 5 { "the far side" }
    else { "the route it took" }
}

fn chapter_note_exec(i: usize) -> (s: &'static str)
    requires
        i < 7,
    ensures
        s@ == chapter_note(i as int),
{
    if i == 0 { "It goes to another continent, and the reply lands before you have put the phone down." }
    else if i == 1 { "The bytes become a radio wave, and cross the room to your router." }
    else if i == 2 { "Voltage steps on copper, until the cabinet turns them into light." }
    else if i == 3 { "The message stops at the app's data center, a few hundred kilometres from your phone." }
    else if i == 4 { "6,600 km of glass on the sea floor, laid by a consortium. The app's company only leases fibre pairs inside it." }
    else if i == 5 { "Inland, out to a tower, and back into radio for the last kilometre." }
    else { "None of the companies along the way coordinated for this message, and none of them knows the whole path it took." }
}

fn segs_exec(i: usize) -> (v: Vec<usize>)
    requires
        i < 7,
    ensures
        v@ == segs(i as int),
{
    let v = if i == 1 { vec![0usize] } else if i == 2 { vec![1usize, 2] } else if i == 3 { vec![3usize, 4] }
        else if i == 4 { vec![5usize] } else if i == 5 { vec![6usize, 7, 8] } else { vec![] };
    assert(v@ =~= segs(i as int));
    v
}

fn xs_exec(i: usize) -> (v: Vec<u64>)
    requires
        i < 7,
    ensures
        v@ == xs(i as int),
{
    let v = if i == 1 { vec![190u64, 770] } else if i == 2 || i == 3 { vec![130u64, 480, 830] }
        else if i == 4 { vec![90u64, 870] } else if i == 5 { vec![110u64, 390, 660, 890] } else { vec![] };
    assert(v@ =~= xs(i as int));
    v
}

/// What the message-journey sim shows at one moment.
pub struct JourneyState {
    pub chapter: usize,
    /// Time into the chapter and the chapter's length; travel progress is
    /// `0.06 + 0.84 dt / dur` along the chapter's stops.
    pub dt: u64,
    pub dur: u64,
    pub label: &'static str,
    pub note: &'static str,
    /// Route leg under way, in travelling chapters.
    pub leg: Option<usize>,
    /// The medium carrying it.
    pub medium: Option<&'static str>,
    /// Node row: lit nodes filled.
    pub node_dots: String,
    /// Chapter row: the current chapter filled.
    pub chapter_dots: String,
}

/// The message-journey sim as a looping animation.
pub struct MessageJourney;

impl MessageJourney {
    pub fn duration(&self) -> (d: u64)
        ensures
            d == chapter_start(7),
    {
        proof {
            reveal_with_fuel(chapter_start, 8);
        }
        TOTAL
    }

    /// State at `t` (looped).
    pub fn state_at(&self, t: u64) -> (st: JourneyState)
        ensures
            ({
                let tt = (t as nat) % chapter_start(7);
                let i = st.chapter as int;
                let dt = (tt - chapter_start(i)) as nat;
                &&& 0 <= i < 7
                &&& chapter_start(i) <= tt < chapter_start(i) + chapter_dur(i)
                &&& st.dt == dt
                &&& st.dur == chapter_dur(i)
                &&& st.label@ == chapter_label(i)
                &&& st.note@ == chapter_note(i)
                &&& (match leg_at(i, dt) {
                    Some(l) => st.leg == Some(l as usize) && st.medium.is_some() && st.medium.unwrap()@ == medium(l),
                    None => st.leg.is_none() && st.medium.is_none(),
                })
                &&& st.node_dots@ == (match leg_at(i, dt) {
                    Some(l) => marks("●"@, "○"@, (l + 1) as nat, (NODES - l - 1) as nat),
                    None => marks("●"@, "○"@, 0, NODES as nat),
                })
                &&& st.chapter_dots@ == dots_row(i, 7)
            }),
    {
        proof {
            reveal_with_fuel(chapter_start, 8);
        }
        let tt = t % TOTAL;
        let mut acc: u64 = 0;
        let mut ci: usize = 0;
        while ci < 6 && tt >= acc + chapter_dur_exec(ci)
            invariant
                ci <= 6,
                acc == chapter_start(ci as int),
                tt >= acc,
                tt < TOTAL,
                chapter_start(7) == TOTAL,
            decreases 6 - ci,
        {
            acc = acc + chapter_dur_exec(ci);
            ci = ci + 1;
        }
        let dur = chapter_dur_exec(ci);
        let dt = tt - acc;
        let sg = segs_exec(ci);
        let xv = xs_exec(ci);
        let (leg, medium) = if sg.len() == 0 {
            (None, None)
        } else {
            let x0 = xv[0];
            let x1 = xv[xv.len() - 1];
            assert(x0 <= x1 <= 900);
            assert(forall|q: int| 0 <= q < xv@.len() ==> #[trigger] xv@[q] <= 900);
            let scale = 100 * dur;
            assert(dur * x0 <= 5600 * 900) by (nonlinear_arith) requires dur <= 5600, x0 <= 900;
            let speed = 6 * dur + 84 * dt;
            assert(speed * (x1 - x0) <= 90 * 5600 * 900) by (nonlinear_arith) requires speed <= 90 * 5600, x1 - x0 <= 900;
            let lhs = scale * x0 + speed * (x1 - x0);
            assert forall|q: int| 0 <= q < xv@.len() implies #[trigger] xv@[q] * scale <= 504000000 by {
                let xq = xv@[q];
                assert(xq * scale <= 504000000) by (nonlinear_arith) requires scale <= 560000, xq <= 900;
            }
            let mut k: usize = 0;
            while k < sg.len() - 1 && !(lhs <= xv[k + 1] * scale)
                invariant
                    ci < 7,
                    sg@ == segs(ci as int),
                    xv@ == xs(ci as int),
                    sg@.len() > 0,
                    k < sg@.len(),
                    dt < dur,
                    dur == chapter_dur(ci as int),
                    x0 == xs(ci as int)[0],
                    x1 == xs(ci as int).last(),
                    scale == 100 * dur,
                    scale <= 560000,
                    lhs == 100 * dur * x0 + (6 * dur + 84 * dt) * (x1 - x0),
                    xv@.len() == sg@.len() + 1,
                    forall|q: int| 0 <= q < xv@.len() ==> #[trigger] xv@[q] <= 900,
                    forall|q: int| 0 <= q < xv@.len() ==> #[trigger] xv@[q] * scale <= 504000000,
                    leg_from(ci as int, dt as nat, 0) == leg_from(ci as int, dt as nat, k as int),
                decreases sg@.len() - k,
            {
                k = k + 1;
            }
            let l = sg[k];
            let m = if l == 0 || l == 8 { "radio" } else if l == 1 { "copper" } else { "fiber" };
            (Some(l), Some(m))
        };
        let lit: usize = match leg { Some(l) => l + 1, None => 0 };
        let mut node_dots = String::new();
        let mut i: usize = 0;
        while i < NODES
            invariant
                i <= NODES,
                lit <= NODES,
                node_dots@ + marks("●"@, "○"@, if i < lit { (lit - i) as nat } else { 0 }, if i < lit { (NODES - lit) as nat } else { (NODES - i) as nat })
                    == marks("●"@, "○"@, lit as nat, (NODES - lit) as nat),
            decreases NODES - i,
        {
            let ghost before = node_dots@;
            if i < lit {
                push_str(&mut node_dots, "●");
            } else {
                push_str(&mut node_dots, "○");
            }
            assert(before + marks("●"@, "○"@, if i < lit { (lit - i) as nat } else { 0 }, if i < lit { (NODES - lit) as nat } else { (NODES - i) as nat })
                =~= node_dots@ + marks("●"@, "○"@, if i + 1 < lit { (lit - i - 1) as nat } else { 0 }, if i + 1 < lit { (NODES - lit) as nat } else { (NODES - i - 1) as nat }));
            i = i + 1;
        }
        assert(node_dots@ =~= marks("●"@, "○"@, lit as nat, (NODES - lit) as nat));
        let mut chapter_dots = String::new();
        let mut j: usize = 0;
        while j < CHAPTERS
            invariant
                j <= CHAPTERS,
                chapter_dots@ == dots_row(ci as int, j as int),
            decreases CHAPTERS - j,
        {
            if j == ci {
                push_str(&mut chapter_dots, "◉");
            } else {
                push_str(&mut chapter_dots, "·");
            }
            j = j + 1;
        }
        JourneyState {
            chapter: ci,
            dt,
            dur,
            label: chapter_label_exec(ci),
            note: chapter_note_exec(ci),
            leg,
            medium,
            node_dots,
            chapter_dots,
        }
    }
}

/// Caption beside the waveform for the medium of leg `l`.
pub open spec fn medium_caption(l: int) -> Seq<char> {
    if medium(l) == "radio"@ { "radio waves"@ } else if medium(l) == "copper"@ { "voltage on copper"@ } else { "light in glass"@ }
}

/// Chapter shown on the world map, with the ocean route.
pub const OCEAN_CHAPTER: usize = 4;

/// The shapes of the message-journey scene in one chapter.
pub struct JourneyScene {
    pub chapter: usize,
    /// Polylines drawn: the medium's waveform (or light pulses) while the
    /// message travels, and the ocean route on the map.
    pub polylines: usize,
    /// Paths drawn: the world map in the ocean chapter.
    pub paths: usize,
    /// Whether the message's dot is drawn on the node row.
    pub packet: bool,
    /// Caption of the medium carrying the message.
    pub medium_text: Option<&'static str>,
    /// City labels on the map.
    pub cities: Vec<&'static str>,
}

pub open spec fn strs_view(v: Seq<&'static str>) -> Seq<Seq<char>> {
    v.map_values(|x: &'static str| x@)
}

impl MessageJourney {
    /// What is drawn at `t` (looped), besides the texts of `state_at`.
    pub fn scene_at(&self, t: u64) -> (sc: JourneyScene)
        ensures
            ({
                let tt = (t as nat) % chapter_start(7);
                let i = sc.chapter as int;
                let dt = (tt - chapter_start(i)) as nat;
                let travels = segs(i).len() > 0;
                &&& 0 <= i < 7
                &&& chapter_start(i) <= tt < chapter_start(i) + chapter_dur(i)
                &&& sc.polylines == (if travels { 1usize } else { 0usize }) + (if i == 4 { 1usize } else { 0usize })
                &&& sc.paths == (if i == 4 { 1usize } else { 0usize })
                &&& sc.packet == travels
                &&& (match leg_at(i, dt) {
                    Some(l) => sc.medium_text matches Some(m) && m@ == medium_caption(l),
                    None => sc.medium_text is None,
                })
                &&& strs_view(sc.cities@) == (if i == 4 { seq!["new york"@, "london"@, "frankfurt"@] } else { seq![] })
            }),
    {
        proof {
            reveal_strlit("radio");
            reveal_strlit("copper");
            reveal_strlit("fiber");
            assert("copper"@[0] != "radio"@[0]);
            assert("fiber"@[0] != "radio"@[0] && "fiber"@[0] != "copper"@[0]);
        }
        let st = self.state_at(t);
        let i = st.chapter;
        let travels = i >= 1 && i <= 5;
        assert(travels == (segs(i as int).len() > 0));
        let medium_text = match st.leg {
            Some(l) => {
                let m = if l == 0 || l == 8 { "radio waves" } else if l == 1 { "voltage on copper" } else { "light in glass" };
                assert(m@ == medium_caption(l as int));
                Some(m)
            },
            None => None,
        };
        let ghost tt = (t as nat) % chapter_start(7);
        let ghost dt = (tt - chapter_start(i as int)) as nat;
        assert(match leg_at(i as int, dt) {
            Some(l) => medium_text matches Some(m) && m@ == medium_caption(l),
            None => medium_text is None,
        });
        let mut cities: Vec<&'static str> = Vec::new();
        if i == OCEAN_CHAPTER {
            cities.push("new york");
            cities.push("london");
            cities.push("frankfurt");
        }
        assert(strs_view(cities@) =~= (if i == 4 { seq!["new york"@, "london"@, "frankfurt"@] } else { seq![] }));
        JourneyScene {
            chapter: i,
            polylines: (if travels { 1 } else { 0 }) + (if i == OCEAN_CHAPTER { 1 } else { 0 }),
            paths: if i == OCEAN_CHAPTER { 1 } else { 0 },
            packet: travels,
            medium_text,
            cities,
        }
    }
}

} // verus!
