//! Link-click sim: what happens when you click a link, the click, DNS, the
//! TCP handshake, TLS, the request, the response, and the page building.
use vstd::prelude::*;
use crate::text::push_str;

verus! {

pub const STAGES: usize = 7;
/// Loop length: the stages' durations summed.
pub const TOTAL: u64 = 53400;

pub open spec fn stage_dur(i: int) -> nat {
    if i == 0 { 3600 } else if i == 1 { 6000 } else if i == 2 { 7800 } else if i == 3 { 7000 }
    else if i == 4 { 5400 } else if i == 5 { 12600 } else { 11000 }
}

pub open spec fn stage_label(i: int) -> Seq<char> {
    if i == 0 { "the click"@ } else if i == 1 { "step 1, DNS"@ } else if i == 2 { "step 2, TCP handshake"@ }
    else if i == 3 { "step 3, TLS handshake"@ } else if i == 4 { "step 4, the request"@ } else if i == 5 { "step 5, the response"@ }
    else { "the page builds"@ }
}

pub open spec fn stage_start(i: int) -> nat
    decreases i,
{
    if i <= 0 { 0 } else { stage_start(i - 1) + stage_dur(i - 1) }
}

fn stage_dur_exec(i: usize) -> (d: u64)
    requires
        i < 7,
    ensures
        d == stage_dur(i as int),
{
    if i == 0 { 3600 } else if i == 1 { 6000 } else if i == 2 { 7800 } else if i == 3 { 7000 }
    else if i == 4 { 5400 } else if i == 5 { 12600 } else { 11000 }
}

fn stage_label_exec(i: usize) -> (s: &'static str)
    requires
        i < 7,
    ensures
        s@ == stage_label(i as int),
{
    if i == 0 { "the click" } else if i == 1 { "step 1, DNS" } else if i == 2 { "step 2, TCP handshake" }
    else if i == 3 { "step 3, TLS handshake" } else if i == 4 { "step 4, the request" } else if i == 5 { "step 5, the response" }
    else { "the page builds" }
}

/// Message on the wire in stage `i` at `dt`: label, from and to (0 the
/// browser, 1 the resolver, 2 the server), and the fraction `num / den` of
/// its way it has covered. DNS and TLS split the stage in halves, TCP in
/// thirds (at 33% and 66%); the request and the response take the whole stage.
pub open spec fn packet(i: int, dt: int) -> Option<(Seq<char>, int, int, int, int)> {
    let d = stage_dur(i) as int;
    if i == 1 {
        if 2 * dt < d { Some(("en.wikipedia.org?"@, 0, 1, 2 * dt, d)) } else { Some(("91.198.174.192"@, 1, 0, 2 * dt - d, d)) }
    } else if i == 2 {
        if 100 * dt < 33 * d { Some(("SYN"@, 0, 2, 100 * dt, 33 * d)) }
        else if 100 * dt < 66 * d { Some(("SYN-ACK"@, 2, 0, 100 * dt - 33 * d, 33 * d)) }
        else { Some(("ACK"@, 0, 2, 100 * dt - 66 * d, 34 * d)) }
    } else if i == 3 {
        if 2 * dt < d { Some(("ClientHello + key share"@, 0, 2, 2 * dt, d)) }
        else { Some(("ServerHello + cert + Finished"@, 2, 0, 2 * dt - d, d)) }
    } else if i == 4 {
        Some(("GET /wiki/… (encrypted)"@, 0, 2, dt, d))
    } else if i == 5 {
        Some(("200 OK + HTML chunks"@, 2, 0, dt, d))
    } else {
        None
    }
}

/// `n` copies of `s`.
pub open spec fn repeat(s: Seq<char>, n: nat) -> Seq<char>
    decreases n,
{
    if n == 0 { seq![] } else { repeat(s, (n - 1) as nat) + s }
}

/// A message on the wire.
pub struct Wire {
    pub label: &'static str,
    pub from: u64,
    pub to: u64,
    pub num: u64,
    pub den: u64,
}

/// What the link-click sim shows at one moment.
pub struct LinkState {
    pub stage: usize,
    /// Time into the stage and its length: progress is `dt / dur`.
    pub dt: u64,
    pub dur: u64,
    pub label: &'static str,
    pub packet: Option<Wire>,
    /// The page-build bar, in the last stage: one full block and a light
    /// block per twentieth of the stage gone.
    pub build_bar: Option<String>,
}

pub open spec fn wire_view(w: Option<Wire>) -> Option<(Seq<char>, int, int, int, int)> {
    match w {
        Some(x) => Some((x.label@, x.from as int, x.to as int, x.num as int, x.den as int)),
        None => None,
    }
}

/// The link-click sim as a looping animation.
pub struct LinkClick;

impl LinkClick {
    pub fn duration(&self) -> (d: u64)
        ensures
            d == stage_start(7),
    {
        proof {
            reveal_with_fuel(stage_start, 8);
        }
        TOTAL
    }

    /// State at `t` (looped).
    pub fn state_at(&self, t: u64) -> (st: LinkState)
        ensures
            ({
                let tt = (t as nat) % stage_start(7);
                let i = st.stage as int;
                let dt = tt - stage_start(i);
                &&& 0 <= i < 7
                &&& stage_start(i) <= tt < stage_start(i) + stage_dur(i)
                &&& st.dt == dt
                &&& st.dur == stage_dur(i)
                &&& st.label@ == stage_label(i)
                &&& wire_view(st.packet) == packet(i, dt)
                &&& (match st.build_bar {
                    Some(b) => i == 6 && b@ == "█"@ + repeat("░"@, (20 * dt / stage_dur(i) as int) as nat),
                    None => i != 6,
                })
            }),
    {
        proof {
            reveal_with_fuel(stage_start, 8);
        }
        let tt = t % TOTAL;
        let mut acc: u64 = 0;
        let mut si: usize = 0;
        while si < 6 && tt >= acc + stage_dur_exec(si)
            invariant
                si <= 6,
                acc == stage_start(si as int),
                tt >= acc,
                tt < TOTAL,
                stage_start(7) == TOTAL,
            decreases 6 - si,
        {
            acc = acc + stage_dur_exec(si);
            si = si + 1;
        }
        let d = stage_dur_exec(si);
        let dt = tt - acc;
        let packet = if si == 1 {
            if 2 * dt < d {
                Some(Wire { label: "en.wikipedia.org?", from: 0, to: 1, num: 2 * dt, den: d })
            } else {
                Some(Wire { label: "91.198.174.192", from: 1, to: 0, num: 2 * dt - d, den: d })
            }
        } else if si == 2 {
            if 100 * dt < 33 * d {
                Some(Wire { label: "SYN", from: 0, to: 2, num: 100 * dt, den: 33 * d })
            } else if 100 * dt < 66 * d {
                Some(Wire { label: "SYN-ACK", from: 2, to: 0, num: 100 * dt - 33 * d, den: 33 * d })
            } else {
                Some(Wire { label: "ACK", from: 0, to: 2, num: 100 * dt - 66 * d, den: 34 * d })
            }
        } else if si == 3 {
            if 2 * dt < d {
                Some(Wire { label: "ClientHello + key share", from: 0, to: 2, num: 2 * dt, den: d })
            } else {
                Some(Wire { label: "ServerHello + cert + Finished", from: 2, to: 0, num: 2 * dt - d, den: d })
            }
        } else if si == 4 {
            Some(Wire { label: "GET /wiki/… (encrypted)", from: 0, to: 2, num: dt, den: d })
        } else if si == 5 {
            Some(Wire { label: "200 OK + HTML chunks", from: 2, to: 0, num: dt, den: d })
        } else {
            None
        };
        let build_bar = if si == 6 {
            let n = 20 * dt / d;
            let mut b = String::new();
            push_str(&mut b, "█");
            let mut k: u64 = 0;
            while k < n
                invariant
                    k <= n,
                    b@ == "█"@ + repeat("░"@, k as nat),
                decreases n - k,
            {
                push_str(&mut b, "░");
                k = k + 1;
            }
            Some(b)
        } else {
            None
        };
        LinkState { stage: si, dt, dur: d, label: stage_label_exec(si), packet, build_bar }
    }
}

} // verus!
