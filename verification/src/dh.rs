//! Diffie-Hellman sim: with g = 5 and p = 23 public, the browser picks a = 6
//! and the server b = 15; the shares 8 and 19 cross the wire and both sides
//! derive the key 2, which never travels.
use vstd::prelude::*;
use crate::schedule::{caption_ms, caption_time, max_nat};
use crate::text::push_str;
use vstd::arithmetic::power::{lemma_pow_mod_noop, lemma_pow_multiplies, pow};

verus! {

pub const FLY: u64 = 1400;
pub const PAUSE: u64 = 2600;

pub const CAP_PUBLICS: &'static str = "Everything starts in the open. g = 5 and p = 23 are public constants; the eavesdropper holds them too.";
pub const CAP_PICK: &'static str = "Each side picks a private number and keeps it, a = 6 in the browser, b = 15 in the server. These two numbers never touch the wire.";
pub const CAP_SHARE_A: &'static str = "The browser computes its share A = 5⁶ mod 23 = 8 and sends it. The eavesdropper records it.";
pub const CAP_SHARE_B: &'static str = "The server computes B = 5¹⁵ mod 23 = 19 and sends it back, recorded too. The wire has now carried everything it will ever carry: 5, 23, 8, and 19.";
pub const CAP_DERIVE: &'static str = "Each side raises the share it received to its own private number, 19⁶ mod 23 = 2 in the browser, 8¹⁵ mod 23 = 2 in the server. Both equal 5⁹⁰ mod 23, the same number, never sent.";
pub const CAP_CRACK: &'static str = "The eavesdropper holds 5, 23, 8, and 19, and needs a or b to go further: which power of 5 gives 8, mod 23? Trial finds it instantly at this size; with p hundreds of digits long, no known method finishes. The shares alone are worthless.";

/// Caption timing: 28 ms per byte, clamped to 1600..5200 ms.
pub open spec fn cap(s: Seq<char>) -> nat {
    caption_time(s, 28, 1600, 5200)
}

fn cap_exec(s: &str) -> (r: u64)
    ensures
        r == cap(s@),
        r <= 5200,
{
    caption_ms(s, 28, 1600, 5200)
}

/// Stage boundaries of the loop.
pub struct Sched {
    pub t_pick: u64,
    pub t_share_a: u64,
    pub t_share_b: u64,
    pub t_derive: u64,
    pub t_crack: u64,
    pub duration: u64,
}

pub open spec fn sched_ok(s: Sched) -> bool {
    &&& s.t_pick == cap(CAP_PUBLICS@)
    &&& s.t_share_a == s.t_pick + cap(CAP_PICK@)
    &&& s.t_share_b == s.t_share_a + max_nat(cap(CAP_SHARE_A@), 2300)
    &&& s.t_derive == s.t_share_b + max_nat(cap(CAP_SHARE_B@), 2300)
    &&& s.t_crack == s.t_derive + cap(CAP_DERIVE@)
    &&& s.duration == s.t_crack + cap(CAP_CRACK@) + PAUSE
}

/// The stage boundaries, each caption's display time after the previous.
pub fn sched() -> (s: Sched)
    ensures
        sched_ok(s),
{
    let t_pick = cap_exec(CAP_PUBLICS);
    let t_share_a = t_pick + cap_exec(CAP_PICK);
    let a = cap_exec(CAP_SHARE_A);
    let t_share_b = t_share_a + if a < 2300 { 2300 } else { a };
    let b = cap_exec(CAP_SHARE_B);
    let t_derive = t_share_b + if b < 2300 { 2300 } else { b };
    let t_crack = t_derive + cap_exec(CAP_DERIVE);
    let duration = t_crack + cap_exec(CAP_CRACK) + PAUSE;
    Sched { t_pick, t_share_a, t_share_b, t_derive, t_crack, duration }
}

/// Stage of the exchange.
#[derive(PartialEq, Eq, Structural, Clone, Copy, Debug)]
pub enum Stage {
    Publics,
    Pick,
    ShareA,
    ShareB,
    Derive,
    Crack,
}

pub open spec fn ord(s: Stage) -> int {
    match s {
        Stage::Publics => 0,
        Stage::Pick => 1,
        Stage::ShareA => 2,
        Stage::ShareB => 3,
        Stage::Derive => 4,
        Stage::Crack => 5,
    }
}

/// What the sim shows at one moment: stage, caption, what each side knows,
/// and what the eavesdropper has recorded.
pub struct DhState {
    pub stage: Stage,
    pub note: &'static str,
    pub browser: Vec<&'static str>,
    pub server: Vec<&'static str>,
    pub eavesdropper: Vec<&'static str>,
}

pub open spec fn strs(v: Seq<&'static str>) -> Seq<Seq<char>> {
    v.map_values(|s: &'static str| s@)
}

/// The Diffie-Hellman sim as a looping animation.
pub struct Dh;

impl Dh {
    pub fn duration(&self) -> (d: u64)
        ensures
            forall|s: Sched| #[trigger] sched_ok(s) ==> d == s.duration,
    {
        sched().duration
    }

    /// State at `t` (looped): the stage whose boundary was passed last;
    /// facts appear on each side as the stages reach them, and a share is on
    /// the eavesdropper's record once its flight (from 500 ms into its stage)
    /// has landed.
    pub fn state_at(&self, t: u64) -> (st: DhState)
        ensures
            forall|s: Sched| #[trigger] sched_ok(s) ==> {
                let tt = (t as nat) % (s.duration as nat);
                let k = ord(st.stage);
                &&& st.stage == (if tt >= s.t_crack { Stage::Crack } else if tt >= s.t_derive { Stage::Derive }
                        else if tt >= s.t_share_b { Stage::ShareB } else if tt >= s.t_share_a { Stage::ShareA }
                        else if tt >= s.t_pick { Stage::Pick } else { Stage::Publics })
                &&& st.note@ == (if k == 5 { CAP_CRACK@ } else if k == 4 { CAP_DERIVE@ } else if k == 3 { CAP_SHARE_B@ }
                        else if k == 2 { CAP_SHARE_A@ } else if k == 1 { CAP_PICK@ } else { CAP_PUBLICS@ })
                &&& strs(st.browser@) == (if k >= 1 { seq!["a = 6 · private"@] } else { seq![] })
                        + (if k >= 2 { seq!["A = 5⁶ mod 23 = 8"@] } else { seq![] })
                        + (if k >= 4 { seq!["Bᵃ = 19⁶ mod 23 = 2 · key"@] } else { seq![] })
                &&& strs(st.server@) == (if k >= 1 { seq!["b = 15 · private"@] } else { seq![] })
                        + (if k >= 3 { seq!["B = 5¹⁵ mod 23 = 19"@] } else { seq![] })
                        + (if k >= 4 { seq!["Aᵇ = 8¹⁵ mod 23 = 2 · key"@] } else { seq![] })
                &&& strs(st.eavesdropper@) == seq!["g = 5, p = 23"@]
                        + (if k >= 2 && tt > s.t_share_a + 500 + FLY { seq!["A = 8"@] } else { seq![] })
                        + (if k >= 3 && tt > s.t_share_b + 500 + FLY { seq!["B = 19"@] } else { seq![] })
            },
    {
        let s = sched();
        let tt = t % s.duration;
        let (stage, note, k): (Stage, &'static str, u8) = if tt >= s.t_crack {
            (Stage::Crack, CAP_CRACK, 5)
        } else if tt >= s.t_derive {
            (Stage::Derive, CAP_DERIVE, 4)
        } else if tt >= s.t_share_b {
            (Stage::ShareB, CAP_SHARE_B, 3)
        } else if tt >= s.t_share_a {
            (Stage::ShareA, CAP_SHARE_A, 2)
        } else if tt >= s.t_pick {
            (Stage::Pick, CAP_PICK, 1)
        } else {
            (Stage::Publics, CAP_PUBLICS, 0)
        };
        let mut browser: Vec<&'static str> = Vec::new();
        let mut server: Vec<&'static str> = Vec::new();
        let mut eve: Vec<&'static str> = Vec::new();
        let ghost b0 = browser@;
        if k >= 1 {
            browser.push("a = 6 · private");
            server.push("b = 15 · private");
        }
        let ghost b1 = browser@;
        let ghost s1 = server@;
        if k >= 2 {
            browser.push("A = 5⁶ mod 23 = 8");
        }
        let ghost b2 = browser@;
        if k >= 3 {
            server.push("B = 5¹⁵ mod 23 = 19");
        }
        let ghost s2 = server@;
        if k >= 4 {
            browser.push("Bᵃ = 19⁶ mod 23 = 2 · key");
            server.push("Aᵇ = 8¹⁵ mod 23 = 2 · key");
        }
        eve.push("g = 5, p = 23");
        let ghost e1 = eve@;
        if k >= 2 && tt > s.t_share_a + 500 + FLY {
            eve.push("A = 8");
        }
        let ghost e2 = eve@;
        if k >= 3 && tt > s.t_share_b + 500 + FLY {
            eve.push("B = 19");
        }
        proof {
            assert(strs(browser@) =~= (if k >= 1 { seq!["a = 6 · private"@] } else { seq![] })
                + (if k >= 2 { seq!["A = 5⁶ mod 23 = 8"@] } else { seq![] })
                + (if k >= 4 { seq!["Bᵃ = 19⁶ mod 23 = 2 · key"@] } else { seq![] }));
            assert(strs(server@) =~= (if k >= 1 { seq!["b = 15 · private"@] } else { seq![] })
                + (if k >= 3 { seq!["B = 5¹⁵ mod 23 = 19"@] } else { seq![] })
                + (if k >= 4 { seq!["Aᵇ = 8¹⁵ mod 23 = 2 · key"@] } else { seq![] }));
            assert(strs(eve@) =~= seq!["g = 5, p = 23"@]
                + (if k >= 2 && tt > s.t_share_a + 500 + FLY { seq!["A = 8"@] } else { seq![] })
                + (if k >= 3 && tt > s.t_share_b + 500 + FLY { seq!["B = 19"@] } else { seq![] }));
        }
        DhState { stage, note, browser, server, eavesdropper: eve }
    }
}

/// Key agreement: raising the other side's public share to one's own private
/// exponent gives both sides the same number, `g^(a*b) mod p`.
pub proof fn lemma_shared_key(g: int, a: nat, b: nat, p: int)
    requires
        p > 0,
    ensures
        pow(pow(g, b) % p, a) % p == pow(pow(g, a) % p, b) % p,
        pow(pow(g, a) % p, b) % p == pow(g, a * b) % p,
{
    lemma_pow_mod_noop(pow(g, a), b, p);
    lemma_pow_mod_noop(pow(g, b), a, p);
    lemma_pow_multiplies(g, a, b);
    lemma_pow_multiplies(g, b, a);
    assert(a * b == b * a) by (nonlinear_arith);
}

/// The numbers in the captions: A = 5^6 mod 23 = 8, B = 5^15 mod 23 = 19, and
/// both derived keys equal 2.
pub proof fn lemma_caption_numbers()
    ensures
        pow(5, 6) % 23 == 8,
        pow(5, 15) % 23 == 19,
        pow(19, 6) % 23 == 2,
        pow(8, 15) % 23 == 2,
{
    reveal_with_fuel(pow, 16);
    assert(pow(5, 6) == 15625);
    assert(pow(19, 6) == 47045881);
    assert(pow(5, 15) == 30517578125);
    assert(pow(8, 15) == 35184372088832);
}

/// Stage number at `tt` of a loop with boundaries `s` (0 publics .. 5 crack).
pub open spec fn stage_k(s: Sched, tt: nat) -> int {
    if tt >= s.t_crack { 5 } else if tt >= s.t_derive { 4 } else if tt >= s.t_share_b { 3 }
    else if tt >= s.t_share_a { 2 } else if tt >= s.t_pick { 1 } else { 0 }
}

/// The heading naming the stage.
pub open spec fn stage_title(k: int) -> Seq<char> {
    if k == 0 { "public constants"@ } else if k == 1 { "private numbers picked"@ }
    else if k == 2 { "share A crosses the wire"@ } else if k == 3 { "share B crosses the wire"@ }
    else if k == 4 { "both sides derive the key"@ } else { "the eavesdropper tries"@ }
}

/// What the browser knows by stage `k`.
pub open spec fn browser_facts(k: int) -> Seq<Seq<char>> {
    (if k >= 1 { seq!["a = 6 · private"@] } else { seq![] })
        + (if k >= 2 { seq!["A = 5⁶ mod 23 = 8"@] } else { seq![] })
        + (if k >= 4 { seq!["Bᵃ = 19⁶ mod 23 = 2 · key"@] } else { seq![] })
}

/// What the server knows by stage `k`.
pub open spec fn server_facts(k: int) -> Seq<Seq<char>> {
    (if k >= 1 { seq!["b = 15 · private"@] } else { seq![] })
        + (if k >= 3 { seq!["B = 5¹⁵ mod 23 = 19"@] } else { seq![] })
        + (if k >= 4 { seq!["Aᵇ = 8¹⁵ mod 23 = 2 · key"@] } else { seq![] })
}

/// Separator of the eavesdropper's record.
pub open spec fn sep() -> Seq<char> {
    "   ·   "@
}

/// The eavesdropper's record: the public constants, then each share once
/// it has crossed the wire.
pub open spec fn eve_line(s: Sched, tt: nat) -> Seq<char> {
    let k = stage_k(s, tt);
    "g = 5, p = 23"@
        + (if k >= 2 && tt > s.t_share_a + 500 + FLY { sep() + "A = 8"@ } else { seq![] })
        + (if k >= 3 && tt > s.t_share_b + 500 + FLY { sep() + "B = 19"@ } else { seq![] })
}

/// The texts of the scene in drawing order: stage heading, public
/// constants, browser facts, server facts, the eavesdropper's heading and
/// record, and in the last stage the failed attack.
pub open spec fn dh_texts(s: Sched, tt: nat) -> Seq<Seq<char>> {
    let k = stage_k(s, tt);
    seq![stage_title(k), "g = 5, p = 23 · public"@] + browser_facts(k) + server_facts(k)
        + seq!["eavesdropper · reads everything on the wire"@, eve_line(s, tt)]
        + (if k >= 5 { seq!["✕ 5ˣ mod 23 = 8 → x = ? · infeasible at real sizes"@] } else { seq![] })
}

/// Shares on the wire: (label, elapsed, browser-to-server), each from
/// 500 ms into its stage until it has crossed.
pub open spec fn dh_packets(s: Sched, tt: nat) -> Seq<(Seq<char>, nat, bool)> {
    let k = stage_k(s, tt);
    let a0 = s.t_share_a + 500;
    let b0 = s.t_share_b + 500;
    (if k >= 2 && a0 <= tt <= a0 + FLY { seq![("A = 8"@, (tt - a0) as nat, true)] } else { seq![] })
        + (if k >= 3 && b0 <= tt <= b0 + FLY { seq![("B = 19"@, (tt - b0) as nat, false)] } else { seq![] })
}

/// Labels and texts of the Diffie-Hellman scene.
pub struct DhScene {
    /// Shares in flight: label, elapsed ms, and whether it travels from
    /// the browser to the server.
    pub packets: Vec<(&'static str, u64, bool)>,
    pub texts: Vec<String>,
}

pub open spec fn packet_views(v: Seq<(&'static str, u64, bool)>) -> Seq<(Seq<char>, nat, bool)> {
    v.map_values(|p: (&'static str, u64, bool)| (p.0@, p.1 as nat, p.2))
}

pub open spec fn string_views(v: Seq<String>) -> Seq<Seq<char>> {
    v.map_values(|x: String| x@)
}

fn owned(s: &str) -> (r: String)
    ensures
        r@ == s@,
{
    let mut r = String::new();
    push_str(&mut r, s);
    r
}

impl Dh {
    /// The shares in flight and the texts shown at `t` (looped).
    pub fn scene_at(&self, t: u64) -> (sc: DhScene)
        ensures
            forall|s: Sched| #[trigger] sched_ok(s) ==> {
                let tt = (t as nat) % (s.duration as nat);
                &&& packet_views(sc.packets@) == dh_packets(s, tt)
                &&& string_views(sc.texts@) == dh_texts(s, tt)
            },
    {
        let s = sched();
        let tt = t % s.duration;
        let k: u8 = if tt >= s.t_crack { 5 } else if tt >= s.t_derive { 4 } else if tt >= s.t_share_b { 3 }
            else if tt >= s.t_share_a { 2 } else if tt >= s.t_pick { 1 } else { 0 };
        assert(k == stage_k(s, tt as nat));
        let mut packets: Vec<(&'static str, u64, bool)> = Vec::new();
        let a0 = s.t_share_a + 500;
        let b0 = s.t_share_b + 500;
        if k >= 2 && a0 <= tt && tt <= a0 + FLY {
            packets.push(("A = 8", tt - a0, true));
        }
        let ghost p1 = packets@;
        if k >= 3 && b0 <= tt && tt <= b0 + FLY {
            packets.push(("B = 19", tt - b0, false));
        }
        proof {
            assert(packet_views(packets@) =~= dh_packets(s, tt as nat));
        }
        let mut texts: Vec<String> = Vec::new();
        let title = if k == 0 { "public constants" } else if k == 1 { "private numbers picked" }
            else if k == 2 { "share A crosses the wire" } else if k == 3 { "share B crosses the wire" }
            else if k == 4 { "both sides derive the key" } else { "the eavesdropper tries" };
        texts.push(owned(title));
        texts.push(owned("g = 5, p = 23 · public"));
        if k >= 1 {
            texts.push(owned("a = 6 · private"));
        }
        if k >= 2 {
            texts.push(owned("A = 5⁶ mod 23 = 8"));
        }
        if k >= 4 {
            texts.push(owned("Bᵃ = 19⁶ mod 23 = 2 · key"));
        }
        if k >= 1 {
            texts.push(owned("b = 15 · private"));
        }
        if k >= 3 {
            texts.push(owned("B = 5¹⁵ mod 23 = 19"));
        }
        if k >= 4 {
            texts.push(owned("Aᵇ = 8¹⁵ mod 23 = 2 · key"));
        }
        texts.push(owned("eavesdropper · reads everything on the wire"));
        let mut eve = owned("g = 5, p = 23");
        if k >= 2 && tt > s.t_share_a + 500 + FLY {
            push_str(&mut eve, "   ·   ");
            push_str(&mut eve, "A = 8");
        }
        if k >= 3 && tt > s.t_share_b + 500 + FLY {
            push_str(&mut eve, "   ·   ");
            push_str(&mut eve, "B = 19");
        }
        assert(eve@ =~= eve_line(s, tt as nat));
        texts.push(eve);
        if k >= 5 {
            texts.push(owned("✕ 5ˣ mod 23 = 8 → x = ? · infeasible at real sizes"));
        }
        proof {
            assert(string_views(texts@) =~= dh_texts(s, tt as nat));
        }
        DhScene { packets, texts }
    }
}

} // verus!
