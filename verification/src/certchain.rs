//! Certificate-chain sim: the browser climbs the signing chain to a root in
//! its trust store; then the forged case, whose issuer it cannot verify.
use vstd::prelude::*;
use crate::schedule::{caption_ms, caption_time, max_nat};
use crate::text::{push_str, same_text};

verus! {

/// Shortest stay of an introduction (ms).
pub const STEP1: u64 = 2400;

/// Caption timing: 28 ms per byte, clamped to 1400..4200 ms.
pub open spec fn cap(s: Seq<char>) -> nat {
    caption_time(s, 28, 1400, 4200)
}

fn cap_exec(s: &str) -> (r: u64)
    ensures
        r == cap(s@),
        r <= 4200,
{
    caption_ms(s, 28, 1400, 4200)
}

/// The browser's trust store.
pub open spec fn store(i: int) -> Seq<char> {
    if i == 0 { "DigiCert Global Root CA"@ } else if i == 1 { "GlobalSign Root R1"@ } else { "ISRG Root X1"@ }
}

pub fn store_exec(i: usize) -> (s: &'static str)
    requires
        i < 3,
    ensures
        s@ == store(i as int),
{
    if i == 0 { "DigiCert Global Root CA" } else if i == 1 { "GlobalSign Root R1" } else { "ISRG Root X1" }
}

/// Number of certificates in scenario `si` (honest, then forged).
pub open spec fn chain_len(si: int) -> int {
    if si == 0 { 3 } else { 2 }
}

/// The root of scenario `si` is in the trust store.
pub open spec fn root_trusted(si: int) -> bool {
    si == 0
}

pub open spec fn cert_name(si: int, i: int) -> Seq<char> {
    if i == 0 { "en.wikipedia.org"@ }
    else if si == 0 && i == 1 { "DigiCert TLS Hybrid ECC SHA384 2020 CA1"@ }
    else if si == 0 { "DigiCert Global Root CA"@ }
    else { "unknown issuer"@ }
}

pub open spec fn cert_sub(si: int, i: int) -> Seq<char> {
    if si == 0 {
        if i == 0 { "the certificate the server presents"@ }
        else if i == 1 { "intermediate authority, not itself trusted"@ }
        else { "ships inside the browser, already trusted"@ }
    } else {
        if i == 0 { "forged, presented by an attacker"@ } else { "no certificate offered, not in any trust store"@ }
    }
}

/// The signature on certificate `i - 1` can be checked with certificate `i`'s key.
pub open spec fn check_ok(si: int, i: int) -> bool {
    !(si == 1 && i == 1)
}

pub open spec fn intro(si: int) -> Seq<char> {
    if si == 0 {
        "The honest case first, the browser connects to the real en.wikipedia.org."@
    } else {
        "Now the failure case, an attacker intercepts the connection and answers in the server's place."@
    }
}

pub open spec fn narration(si: int, k: int) -> Seq<char> {
    if si == 0 {
        if k == 0 {
            "The server presents a certificate claiming to be en.wikipedia.org, naming an intermediate authority run by DigiCert as its issuer. The browser trusts none of this yet."@
        } else if k == 1 {
            "The browser hashes the certificate and checks its signature with the intermediate's public key. It verifies, so the intermediate really signed it, but the intermediate isn't trusted either, so the browser climbs a link."@
        } else {
            "The same check one level up: the intermediate's own signature verifies with DigiCert Global Root CA's public key, and that root ships inside the browser. The chain terminates at something already trusted."@
        }
    } else {
        if k == 0 {
            "The attacker presents their own certificate, also claiming to be en.wikipedia.org. Same first step, nothing trusted yet."@
        } else {
            "The browser attempts the same check, but the named issuer is in no trust store and no certificate for it was offered, so there is no public key to verify the signature with, and no further link to climb."@
        }
    }
}

pub open spec fn verdict(si: int) -> Seq<char> {
    if si == 0 {
        "Chain verified: en.wikipedia.org ← intermediate ← DigiCert Global Root CA. Padlock shown."@
    } else {
        "Verification fails, browser blocks the connection: \"Your connection is not private.\""@
    }
}

fn intro_exec(si: usize) -> (s: &'static str)
    requires
        si < 2,
    ensures
        s@ == intro(si as int),
{
    if si == 0 {
        "The honest case first, the browser connects to the real en.wikipedia.org."
    } else {
        "Now the failure case, an attacker intercepts the connection and answers in the server's place."
    }
}

fn narration_exec(si: usize, k: usize) -> (s: &'static str)
    requires
        si < 2,
        k < chain_len(si as int),
    ensures
        s@ == narration(si as int, k as int),
{
    if si == 0 {
        if k == 0 {
            "The server presents a certificate claiming to be en.wikipedia.org, naming an intermediate authority run by DigiCert as its issuer. The browser trusts none of this yet."
        } else if k == 1 {
            "The browser hashes the certificate and checks its signature with the intermediate's public key. It verifies, so the intermediate really signed it, but the intermediate isn't trusted either, so the browser climbs a link."
        } else {
            "The same check one level up: the intermediate's own signature verifies with DigiCert Global Root CA's public key, and that root ships inside the browser. The chain terminates at something already trusted."
        }
    } else {
        if k == 0 {
            "The attacker presents their own certificate, also claiming to be en.wikipedia.org. Same first step, nothing trusted yet."
        } else {
            "The browser attempts the same check, but the named issuer is in no trust store and no certificate for it was offered, so there is no public key to verify the signature with, and no further link to climb."
        }
    }
}

fn verdict_exec(si: usize) -> (s: &'static str)
    requires
        si < 2,
    ensures
        s@ == verdict(si as int),
{
    if si == 0 {
        "Chain verified: en.wikipedia.org ← intermediate ← DigiCert Global Root CA. Padlock shown."
    } else {
        "Verification fails, browser blocks the connection: \"Your connection is not private.\""
    }
}

/// One certificate of a chain.
pub struct Cert {
    pub name: &'static str,
    pub sub: &'static str,
    pub check_ok: bool,
}

/// A scenario: its chain (server certificate first) and whether the chain
/// ends in the trust store.
pub struct Scenario {
    pub chain: Vec<Cert>,
    pub root_trusted: bool,
}

fn cert(si: usize, i: usize) -> (c: Cert)
    requires
        si < 2,
        i < chain_len(si as int),
    ensures
        c.name@ == cert_name(si as int, i as int),
        c.sub@ == cert_sub(si as int, i as int),
        c.check_ok == check_ok(si as int, i as int),
{
    let name = if i == 0 { "en.wikipedia.org" } else if si == 0 && i == 1 { "DigiCert TLS Hybrid ECC SHA384 2020 CA1" }
        else if si == 0 { "DigiCert Global Root CA" } else { "unknown issuer" };
    let sub = if si == 0 {
        if i == 0 { "the certificate the server presents" } else if i == 1 { "intermediate authority, not itself trusted" }
        else { "ships inside the browser, already trusted" }
    } else {
        if i == 0 { "forged, presented by an attacker" } else { "no certificate offered, not in any trust store" }
    };
    Cert { name, sub, check_ok: !(si == 1 && i == 1) }
}

/// The honest chain and the forged one.
pub fn scenarios() -> (v: Vec<Scenario>)
    ensures
        v@.len() == 2,
        forall|si: int| 0 <= si < 2 ==> {
            &&& (#[trigger] v@[si]).chain@.len() == chain_len(si)
            &&& v@[si].root_trusted == root_trusted(si)
            &&& forall|i: int| 0 <= i < chain_len(si) ==> {
                &&& (#[trigger] v@[si].chain@[i]).name@ == cert_name(si, i)
                &&& v@[si].chain@[i].sub@ == cert_sub(si, i)
                &&& v@[si].chain@[i].check_ok == check_ok(si, i)
            }
        },
{
    let a = vec![cert(0, 0), cert(0, 1), cert(0, 2)];
    let b = vec![cert(1, 0), cert(1, 1)];
    vec![Scenario { chain: a, root_trusted: true }, Scenario { chain: b, root_trusted: false }]
}

/// Phase of a scenario: its introduction, the reveal of certificate `k`, the verdict.
#[derive(PartialEq, Eq, Structural, Clone, Copy, Debug)]
pub enum Phase {
    Intro,
    Reveal(usize),
    Verdict,
}

/// First event of scenario `si`.
pub open spec fn offset(si: int) -> int
    decreases si,
{
    if si <= 0 { 0 } else { offset(si - 1) + chain_len(si - 1) + 2 }
}

/// Event `j` of the loop: its scenario and phase.
pub open spec fn event_of(j: int) -> (int, Phase) {
    let si = if j >= offset(1) { 1int } else { 0int };
    let r = j - offset(si);
    (si, if r == 0 { Phase::Intro } else if r <= chain_len(si) { Phase::Reveal((r - 1) as usize) } else { Phase::Verdict })
}

/// Caption shown during event `j`.
pub open spec fn event_note(j: int) -> Seq<char> {
    let (si, ph) = event_of(j);
    match ph {
        Phase::Intro => intro(si),
        Phase::Reveal(k) => narration(si, k as int),
        Phase::Verdict => verdict(si),
    }
}

/// Length of event `j`: an introduction stays at least `STEP1`, a verdict
/// 600 ms beyond its caption.
pub open spec fn event_len(j: int) -> nat {
    let (si, ph) = event_of(j);
    match ph {
        Phase::Intro => max_nat(STEP1 as nat, cap(intro(si))),
        Phase::Reveal(k) => cap(narration(si, k as int)),
        Phase::Verdict => cap(verdict(si)) + 600,
    }
}

pub open spec fn event_start(j: int) -> nat
    decreases j,
{
    if j <= 0 { 0 } else { event_start(j - 1) + event_len(j - 1) }
}

/// Number of events in the loop.
pub open spec fn n_events() -> int {
    offset(2)
}

/// One event: when it starts, its scenario and phase.
pub struct Event {
    pub at: u64,
    pub scenario: usize,
    pub phase: Phase,
}

pub open spec fn event_ok(e: Event, j: int) -> bool {
    &&& e.at == event_start(j)
    &&& (e.scenario as int, e.phase) == event_of(j)
}

/// The schedule: events in time order and the loop length.
pub struct Sched {
    pub events: Vec<Event>,
    pub duration: u64,
}

/// The schedule, each event lasting as long as its caption needs.
pub fn sched() -> (s: Sched)
    ensures
        s.events@.len() == n_events(),
        forall|j: int| 0 <= j < n_events() ==> #[trigger] event_ok(s.events@[j], j),
        s.duration == event_start(n_events()),
        s.duration > 0,
{
    let mut events: Vec<Event> = Vec::new();
    let mut t: u64 = 0;
    let mut si: usize = 0;
    proof {
        reveal_with_fuel(offset, 3);
    }
    while si < 2
        invariant
            si <= 2,
            offset(1) == 5,
            offset(2) == 9,
            events@.len() == offset(si as int),
            t == event_start(events@.len() as int),
            t <= 4800 * events@.len(),
            events@.len() > 0 ==> t > 0,
            forall|j: int| 0 <= j < events@.len() ==> #[trigger] event_ok(events@[j], j),
        decreases 2 - si,
    {
        let ghost j0 = events@.len() as int;
        assert(event_of(j0) == (si as int, Phase::Intro));
        events.push(Event { at: t, scenario: si, phase: Phase::Intro });
        let c = cap_exec(intro_exec(si));
        t = t + if STEP1 < c { c } else { STEP1 };
        let n: usize = if si == 0 { 3 } else { 2 };
        let mut k: usize = 0;
        while k < n
            invariant
                si < 2,
                n == chain_len(si as int),
                k <= n,
                offset(1) == 5,
                offset(2) == 9,
                events@.len() == j0 + 1 + k,
                j0 == offset(si as int),
                t == event_start(events@.len() as int),
                t <= 4800 * events@.len(),
                t > 0,
                forall|j: int| 0 <= j < events@.len() ==> #[trigger] event_ok(events@[j], j),
            decreases n - k,
        {
            assert(event_of(j0 + 1 + k) == (si as int, Phase::Reveal(k)));
            events.push(Event { at: t, scenario: si, phase: Phase::Reveal(k) });
            t = t + cap_exec(narration_exec(si, k));
            k = k + 1;
        }
        assert(event_of(j0 + 1 + n) == (si as int, Phase::Verdict));
        events.push(Event { at: t, scenario: si, phase: Phase::Verdict });
        t = t + cap_exec(verdict_exec(si)) + 600;
        si = si + 1;
    }
    Sched { events, duration: t }
}

/// What the certificate sim shows at one moment.
pub struct CertState {
    /// Index of the event in progress.
    pub event: usize,
    pub scenario: usize,
    /// Certificates shown, from the server's down.
    pub revealed: usize,
    pub note: &'static str,
    pub verdict_shown: bool,
    /// The label between certificate `i` and the one below it, for each
    /// shown `i >= 1`, in order.
    pub arrows: Vec<String>,
    /// Each trust-store root: marked as the chain's anchor.
    pub matched: Vec<bool>,
    pub badge: Option<&'static str>,
}

/// The arrow label above certificate `i` once `revealed` are shown.
pub open spec fn arrow(si: int, i: int, revealed: int, verdict_shown: bool) -> Seq<char> {
    "↑ "@ + if verdict_shown || i + 1 < revealed {
        if check_ok(si, i) { "signed by, ✓ signature valid"@ } else { "signed by, ✕ no key to verify with"@ }
    } else {
        "signed by, verifying signature…"@
    }
}

/// The certificate sim as a looping animation.
pub struct CertChain;

impl CertChain {
    pub fn duration(&self) -> (d: u64)
        ensures
            d == event_start(n_events()),
    {
        sched().duration
    }

    /// State at `t` (looped): the event in progress decides how many
    /// certificates are shown and which caption; at the verdict a trusted
    /// chain marks the store root that anchors it.
    pub fn state_at(&self, t: u64) -> (st: CertState)
        ensures
            ({
                let tt = (t as nat) % event_start(n_events());
                let j = st.event as int;
                let (si, ph) = event_of(j);
                &&& 0 <= j < n_events()
                &&& event_start(j) <= tt
                &&& (j + 1 < n_events() ==> tt < event_start(j + 1))
                &&& st.scenario == si
                &&& st.note@ == event_note(j)
                &&& st.revealed == (match ph { Phase::Intro => 0, Phase::Reveal(k) => k + 1, Phase::Verdict => chain_len(si) })
                &&& st.verdict_shown == (ph == Phase::Verdict)
                &&& st.arrows@.len() == (if st.revealed > 0 { st.revealed - 1 } else { 0 })
                &&& forall|i: int| 1 <= i < st.revealed ==> (#[trigger] st.arrows@[i - 1])@ == arrow(si, i, st.revealed as int, st.verdict_shown)
                &&& st.matched@.len() == 3
                &&& forall|i: int| 0 <= i < 3 ==> #[trigger] st.matched@[i] == (st.verdict_shown && root_trusted(si)
                    && store(i) == cert_name(si, chain_len(si) - 1))
                &&& st.badge == (if !st.verdict_shown { None } else if root_trusted(si) { Some("✓ chain verified") } else { Some("✕ chain not trusted") })
            }),
    {
        let sd = sched();
        let sc = scenarios();
        let tt = t % sd.duration;
        let mut starts: Vec<u64> = Vec::new();
        let mut k: usize = 0;
        while k < sd.events.len()
            invariant
                k <= sd.events@.len(),
                starts@.len() == k,
                forall|j: int| 0 <= j < k ==> #[trigger] starts@[j] == sd.events@[j].at,
            decreases sd.events@.len() - k,
        {
            starts.push(sd.events[k].at);
            k = k + 1;
        }
        let j = crate::schedule::stage_index(&starts, tt);
        proof {
            reveal_with_fuel(offset, 3);
            assert(event_ok(sd.events@[j as int], j as int));
            if j + 1 < n_events() {
                assert(starts@[j + 1] > tt);
                assert(event_ok(sd.events@[j + 1], j + 1));
            }
            if j == 0 {
                assert(event_ok(sd.events@[0], 0));
            }
        }
        let ev = &sd.events[j];
        let si = ev.scenario;
        let n = sc[si].chain.len();
        let (revealed, note, verdict_shown) = match ev.phase {
            Phase::Intro => (0usize, intro_exec(si), false),
            Phase::Reveal(r) => (r + 1, narration_exec(si, r), false),
            Phase::Verdict => (n, verdict_exec(si), true),
        };
        let mut arrows: Vec<String> = Vec::new();
        let mut i: usize = 1;
        while i < revealed
            invariant
                1 <= i <= revealed || (revealed == 0 && i == 1),
                revealed <= chain_len(si as int),
                si < 2,
                sc@.len() == 2,
                sc@[si as int].chain@.len() == chain_len(si as int),
                forall|q: int| 0 <= q < chain_len(si as int) ==>
                    (#[trigger] sc@[si as int].chain@[q]).check_ok == check_ok(si as int, q),
                arrows@.len() == i - 1,
                forall|q: int| 1 <= q < i ==> (#[trigger] arrows@[q - 1])@ == arrow(si as int, q, revealed as int, verdict_shown),
            decreases revealed - i,
        {
            let mut s = String::new();
            push_str(&mut s, "↑ ");
            if verdict_shown || i + 1 < revealed {
                if sc[si].chain[i].check_ok {
                    push_str(&mut s, "signed by, ✓ signature valid");
                } else {
                    push_str(&mut s, "signed by, ✕ no key to verify with");
                }
            } else {
                push_str(&mut s, "signed by, verifying signature…");
            }
            arrows.push(s);
            i = i + 1;
        }
        let trusted = sc[si].root_trusted;
        let last = sc[si].chain[n - 1].name;
        let mut matched: Vec<bool> = Vec::new();
        let mut r: usize = 0;
        while r < 3
            invariant
                r <= 3,
                matched@.len() == r,
                last@ == cert_name(si as int, chain_len(si as int) - 1),
                trusted == root_trusted(si as int),
                forall|q: int| 0 <= q < r ==> #[trigger] matched@[q] == (verdict_shown && root_trusted(si as int)
                    && store(q) == cert_name(si as int, chain_len(si as int) - 1)),
            decreases 3 - r,
        {
            let m = verdict_shown && trusted && same_text(store_exec(r), last);
            matched.push(m);
            r = r + 1;
        }
        let badge = if !verdict_shown { None } else if trusted { Some("✓ chain verified") } else { Some("✕ chain not trusted") };
        CertState { event: j, scenario: si, revealed, note, verdict_shown, arrows, matched, badge }
    }
}

} // verus!
