//! VPN sim: the whole packet, IP header and all, is encrypted and wrapped in
//! a second packet addressed to the VPN server; the ISP sees only the outer
//! header.
use vstd::prelude::*;
use crate::story::{events_view, replay, replay_from, start, time_ordered, Ev, EvV};
use crate::text::push_str;

verus! {

/// Time for one hop (ms).
pub const HOP_MS: u64 = 1600;
/// Loop length: the last event and a closing pause.
pub const DURATION: u64 = 21800;

/// The packet as it would normally leave.
pub open spec fn inner() -> Seq<char> {
    "IP site ▸ TCP:443 ▸ TLS ▸ ▚▞▚▞▚"@
}

/// The whole packet encrypted inside one addressed to the VPN server.
pub open spec fn wrapped() -> Seq<char> {
    "IP vpn ▸ [ "@ + inner() + " ]"@
}

fn inner_exec() -> (s: String)
    ensures
        s@ == inner(),
{
    let mut s = String::new();
    push_str(&mut s, "IP site ▸ TCP:443 ▸ TLS ▸ ▚▞▚▞▚");
    s
}

fn wrapped_exec() -> (s: String)
    ensures
        s@ == wrapped(),
{
    let mut s = String::new();
    push_str(&mut s, "IP vpn ▸ [ ");
    let i = inner_exec();
    push_str(&mut s, i.as_str());
    push_str(&mut s, " ]");
    s
}

/// The script, in time order.
#[verifier::opaque]
pub open spec fn script() -> Seq<(u64, EvV)> {
    seq![
        (0u64, EvV::Stack(inner())),
        (0u64, EvV::Note("Your request as it would normally leave: the TLS-encrypted payload, TCP, and an IP header naming the site."@)),
        (2200u64, EvV::Stack(wrapped())),
        (2200u64, EvV::Note("The VPN client encrypts that entire packet, IP header included and wraps it in a new packet addressed to the VPN server."@)),
        (4800u64, EvV::Move(1usize)),
        (6400u64, EvV::Note("Your ISP forwards it like any other packet, but all it can read is the outer header, encrypted bytes, bound for the VPN server. The site's name appears nowhere."@)),
        (9200u64, EvV::Move(2usize)),
        (10800u64, EvV::Move(3usize)),
        (12400u64, EvV::Stack(inner())),
        (12400u64, EvV::Note("The VPN server strips the outer packet and decrypts. Your original packet emerges, and is forwarded with the server's own address written in as the source."@)),
        (15200u64, EvV::Move(4usize)),
        (16800u64, EvV::Move(5usize)),
        (18400u64, EvV::Note("The site answers to the VPN server's address; yours never appears. The view your ISP had of you now belongs to the VPN operator instead."@)),
    ]
}

/// The script as events.
pub fn timeline() -> (v: Vec<(u64, Ev)>)
    ensures
        events_view(v@) == script(),
        time_ordered(script()),
{
    let mut v: Vec<(u64, Ev)> = Vec::new();
    v.push((0u64, Ev::Stack(inner_exec())));
    v.push((0u64, Ev::Note("Your request as it would normally leave: the TLS-encrypted payload, TCP, and an IP header naming the site.")));
    v.push((2200u64, Ev::Stack(wrapped_exec())));
    v.push((2200u64, Ev::Note("The VPN client encrypts that entire packet, IP header included and wraps it in a new packet addressed to the VPN server.")));
    v.push((4800u64, Ev::Move(1)));
    v.push((6400u64, Ev::Note("Your ISP forwards it like any other packet, but all it can read is the outer header, encrypted bytes, bound for the VPN server. The site's name appears nowhere.")));
    v.push((9200u64, Ev::Move(2)));
    v.push((10800u64, Ev::Move(3)));
    v.push((12400u64, Ev::Stack(inner_exec())));
    v.push((12400u64, Ev::Note("The VPN server strips the outer packet and decrypts. Your original packet emerges, and is forwarded with the server's own address written in as the source.")));
    v.push((15200u64, Ev::Move(4)));
    v.push((16800u64, Ev::Move(5)));
    v.push((18400u64, Ev::Note("The site answers to the VPN server's address; yours never appears. The view your ISP had of you now belongs to the VPN operator instead.")));
    proof {
        reveal(script);
        assert(events_view(v@) =~= script());
    }
    v
}

/// The Vpn sim as a looping animation.
pub struct Vpn;

impl Vpn {
    pub fn duration(&self) -> (d: u64)
        ensures
            d == DURATION,
    {
        DURATION
    }

    /// State at `t` (looped): the script replayed up to `t`; the packet
    /// moves over `HOP_MS` from the hop it left.
    pub fn state_at(&self, t: u64) -> (st: crate::story::Scene)
        ensures
            ({
                let tt = (t as nat) % (DURATION as nat);
                let r = replay_from(script(), tt, 0, start(inner()));
                &&& st.stack@ == r.stack
                &&& st.note@ == r.note
                &&& st.from == r.from
                &&& st.to == r.to
                &&& st.elapsed == (if tt >= r.mstart { tt - r.mstart } else { 0 })
            }),
    {
        let tt = t % DURATION;
        let events = timeline();
        let s = inner_exec();
        replay(&events, tt, s.as_str())
    }
}

} // verus!
