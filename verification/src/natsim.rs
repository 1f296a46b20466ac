//! NAT sim: two homes hand out the identical private address; both routers
//! rewrite the source to their own public address and note it in their
//! tables; then a second device in home A shares A's public address,
//! distinguished by port.
use vstd::prelude::*;

verus! {

pub const HOP_MS: u64 = 450;
/// Pause at the NAT router while it rewrites.
pub const SWAP_DWELL: u64 = 1600;
pub const DWELL: u64 = 150;
pub const START_DELAY: u64 = 1400;

pub const T_PKT_A: u64 = 1400;
pub const T_SWAP_A: u64 = 1890;
pub const T_PKT_B: u64 = 3300;
pub const T_SWAP_B: u64 = 3790;
pub const T_B_WEB: u64 = 6520;
pub const T_PHASE2: u64 = 10120;
pub const T_SWAP_A2: u64 = 12010;
pub const T_PHONE_WEB: u64 = 14740;
pub const DURATION: u64 = 19140;

/// The timeline's marks follow from the hop times: a packet leaves 40 ms
/// after it is ready, each hop takes `HOP_MS`, and it waits `SWAP_DWELL` at
/// the rewriting router and `DWELL` elsewhere.
pub proof fn lemma_marks()
    ensures
        T_SWAP_A == T_PKT_A + 40 + HOP_MS,
        T_PKT_B == 1900 + 1400,
        T_SWAP_B == T_PKT_B + 40 + HOP_MS,
        T_B_WEB == T_SWAP_B + SWAP_DWELL + 40 + HOP_MS + DWELL + 40 + HOP_MS,
        T_PHASE2 == T_B_WEB + 2600 + 1000,
        T_SWAP_A2 == T_PHASE2 + START_DELAY + 40 + HOP_MS,
        T_PHONE_WEB == T_SWAP_A2 + SWAP_DWELL + 40 + HOP_MS + DWELL + 40 + HOP_MS,
        DURATION == T_PHONE_WEB + 2600 + 1800,
{
}

/// Where a packet is on a path of `hops` hops: the segment it is on (or the
/// node it waits at), whether it is moving, the time since it left that
/// node, and whether its source has been rewritten.
pub struct Walk {
    pub seg: usize,
    pub moving: bool,
    pub elapsed: u64,
    pub public: bool,
}

/// Walk from hop `i`, the packet ready at `cursor`: it leaves 40 ms later,
/// takes `HOP_MS`, and after landing at node `swap_at` is rewritten and
/// waits `SWAP_DWELL` (elsewhere `DWELL`).
pub open spec fn walk_from(hops: nat, i: nat, cursor: nat, t: nat, swap_at: int, public: bool) -> (int, bool, nat, bool)
    decreases hops - i,
{
    if i >= hops {
        (hops as int, false, 0, public)
    } else {
        let depart = cursor + 40;
        let arrive = depart + HOP_MS;
        if t < depart {
            (i as int, false, 0, public)
        } else if t < arrive {
            (i as int, true, (t - depart) as nat, public)
        } else {
            let swapped = swap_at == i + 1;
            walk_from(hops, i + 1, (arrive + if swapped { SWAP_DWELL } else { DWELL }) as nat, t, swap_at, public || swapped)
        }
    }
}

/// Where a packet ready at `start` is at `t` on a path of `hops` hops.
pub fn along(hops: u64, start: u64, t: u64, swap_at: u64) -> (w: Walk)
    requires
        hops <= 16,
        start <= 1_000_000,
    ensures
        (w.seg as int, w.moving, w.elapsed as nat, w.public) == walk_from(hops as nat, 0, start as nat, t as nat, swap_at as int, false),
{
    let mut cursor = start;
    let mut public = false;
    let mut i: u64 = 0;
    while i < hops
        invariant
            i <= hops <= 16,
            cursor <= start + i * 2240,
            start <= 1_000_000,
            walk_from(hops as nat, 0, start as nat, t as nat, swap_at as int, false)
                == walk_from(hops as nat, i as nat, cursor as nat, t as nat, swap_at as int, public),
        decreases hops - i,
    {
        let depart = cursor + 40;
        let arrive = depart + HOP_MS;
        if t < depart {
            return Walk { seg: i as usize, moving: false, elapsed: 0, public };
        }
        if t < arrive {
            return Walk { seg: i as usize, moving: true, elapsed: t - depart, public };
        }
        let swapped = swap_at == i + 1;
        public = public || swapped;
        cursor = arrive + if swapped { SWAP_DWELL } else { DWELL };
        i = i + 1;
    }
    Walk { seg: hops as usize, moving: false, elapsed: 0, public }
}

pub open spec fn note_spec(tt: nat) -> Seq<char> {
    if tt >= T_PHONE_WEB {
        "The server sees two ordinary, distinct public addresses. The shared private address never left either home, so it never collides."@
    } else if tt >= T_SWAP_A2 {
        "Same public address, 203.0.113.7, the whole home shares it. The router hands this conversation a different port, and the table is what tells each reply apart."@
    } else if tt >= T_PHASE2 {
        "Now the phone in home A sends, from its own private address, 192.168.1.23."@
    } else if tt >= T_B_WEB {
        "The server sees two ordinary, distinct public addresses. The shared private address never left either home, so it never collides."@
    } else if tt >= T_SWAP_A {
        "Each router rewrites the source to its own public address, 203.0.113.7 for A, 198.51.100.42 for B, and notes the conversation in its table so the reply can find its way back."@
    } else {
        "Both laptops send at once: identical private address, even the same ephemeral port, in two unrelated homes. Nothing about the source says which home it belongs to."@
    }
}

/// Router A's table: one mapping after the laptop's rewrite, two after the phone's.
pub open spec fn table_a(tt: nat) -> Seq<char> {
    if tt >= T_SWAP_A2 {
        "192.168.1.5:54211→203.0.113.7:40001 · 192.168.1.23:50307→203.0.113.7:40002"@
    } else if tt >= T_SWAP_A {
        "192.168.1.5:54211→203.0.113.7:40001"@
    } else {
        "nat table empty"@
    }
}

/// Router B's table: its laptop's mapping once rewritten.
pub open spec fn table_b(tt: nat) -> Seq<char> {
    if tt >= T_SWAP_B { "192.168.1.5:54211→198.51.100.42:40001"@ } else { "nat table empty"@ }
}

/// A packet on screen: which path (0 laptop A, 1 laptop B, 2 the phone),
/// where it is, and its label.
pub struct NatPacket {
    pub path: usize,
    pub walk: Walk,
    pub label: &'static str,
}

/// What the NAT sim shows at one moment.
pub struct NatState {
    pub phase2: bool,
    pub note: &'static str,
    pub table_a: &'static str,
    pub table_b: &'static str,
    pub caption: &'static str,
    pub packets: Vec<NatPacket>,
}

pub open spec fn walk_view(w: Walk) -> (int, bool, nat, bool) {
    (w.seg as int, w.moving, w.elapsed as nat, w.public)
}

pub open spec fn label_of(public: bool) -> Seq<char> {
    if public { "public source"@ } else { "private source"@ }
}

/// Packets on screen: both laptops' until 2600 ms after B's reaches the
/// server, then the phone's until 2600 ms after it does. Each path has three
/// hops and is rewritten at the router.
pub open spec fn packets_spec(tt: nat) -> Seq<(int, (int, bool, nat, bool))> {
    if tt < T_PHASE2 {
        if tt < T_B_WEB + 2600 {
            seq![(0, walk_from(3, 0, T_PKT_A as nat, tt, 1, false)), (1, walk_from(3, 0, T_PKT_B as nat, tt, 1, false))]
        } else {
            seq![]
        }
    } else if tt < T_PHONE_WEB + 2600 {
        seq![(2, walk_from(3, 0, (T_PHASE2 + START_DELAY) as nat, tt, 1, false))]
    } else {
        seq![]
    }
}

/// The NAT sim as a looping animation.
pub struct Nat;

impl Nat {
    pub fn duration(&self) -> (d: u64)
        ensures
            d == DURATION,
    {
        DURATION
    }

    /// State at `t` (looped).
    pub fn state_at(&self, t: u64) -> (st: NatState)
        ensures
            ({
                let tt = (t as nat) % (DURATION as nat);
                &&& st.phase2 == (tt >= T_PHASE2)
                &&& st.note@ == note_spec(tt)
                &&& st.table_a@ == table_a(tt)
                &&& st.table_b@ == table_b(tt)
                &&& st.caption@ == (if st.phase2 { "one home, one public address, shared"@ } else { "two homes, the same private address"@ })
                &&& st.packets@.map_values(|p: NatPacket| (p.path as int, walk_view(p.walk))) == packets_spec(tt)
                &&& forall|k: int| 0 <= k < st.packets@.len() ==> (#[trigger] st.packets@[k]).label@ == label_of(st.packets@[k].walk.public)
            }),
    {
        let tt = t % DURATION;
        let phase2 = tt >= T_PHASE2;
        let note = if tt >= T_PHONE_WEB {
            "The server sees two ordinary, distinct public addresses. The shared private address never left either home, so it never collides."
        } else if tt >= T_SWAP_A2 {
            "Same public address, 203.0.113.7, the whole home shares it. The router hands this conversation a different port, and the table is what tells each reply apart."
        } else if tt >= T_PHASE2 {
            "Now the phone in home A sends, from its own private address, 192.168.1.23."
        } else if tt >= T_B_WEB {
            "The server sees two ordinary, distinct public addresses. The shared private address never left either home, so it never collides."
        } else if tt >= T_SWAP_A {
            "Each router rewrites the source to its own public address, 203.0.113.7 for A, 198.51.100.42 for B, and notes the conversation in its table so the reply can find its way back."
        } else {
            "Both laptops send at once: identical private address, even the same ephemeral port, in two unrelated homes. Nothing about the source says which home it belongs to."
        };
        let mut packets: Vec<NatPacket> = Vec::new();
        if !phase2 {
            if tt < T_B_WEB + 2600 {
                let a = along(3, T_PKT_A, tt, 1);
                let la = if a.public { "public source" } else { "private source" };
                packets.push(NatPacket { path: 0, walk: a, label: la });
                let b = along(3, T_PKT_B, tt, 1);
                let lb = if b.public { "public source" } else { "private source" };
                packets.push(NatPacket { path: 1, walk: b, label: lb });
            }
        } else if tt < T_PHONE_WEB + 2600 {
            let p = along(3, T_PHASE2 + START_DELAY, tt, 1);
            let lp = if p.public { "public source" } else { "private source" };
            packets.push(NatPacket { path: 2, walk: p, label: lp });
        }
        assert(packets@.map_values(|p: NatPacket| (p.path as int, walk_view(p.walk))) =~= packets_spec(tt as nat));
        let table_a = if tt >= T_SWAP_A2 {
            "192.168.1.5:54211→203.0.113.7:40001 · 192.168.1.23:50307→203.0.113.7:40002"
        } else if tt >= T_SWAP_A {
            "192.168.1.5:54211→203.0.113.7:40001"
        } else {
            "nat table empty"
        };
        let table_b = if tt >= T_SWAP_B { "192.168.1.5:54211→198.51.100.42:40001" } else { "nat table empty" };
        let caption = if phase2 { "one home, one public address, shared" } else { "two homes, the same private address" };
        NatState { phase2, note, table_a, table_b, caption, packets }
    }
}

} // verus!
