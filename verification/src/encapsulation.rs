//! Encapsulation sim: a request gains one header per layer, crosses five
//! hops with its frame swapped at each, is unwrapped at the server, and the
//! response retraces the path.
use vstd::prelude::*;
use crate::story::{events_view, replay, replay_from, start, time_ordered, Ev, EvV};
use crate::text::push_str;

verus! {

/// Time for one hop (ms).
pub const HOP_MS: u64 = 1500;
/// Loop length: the last event and a closing pause.
pub const DURATION: u64 = 43000;

/// The encrypted payload.
pub const CIPHER: &'static str = "▚▞▚▞▚";

/// One more header in front of what a packet carries.
pub open spec fn wrap(header: Seq<char>, inner: Seq<char>) -> Seq<char> {
    header + " ▸ "@ + inner
}

pub open spec fn get() -> Seq<char> {
    "GET /wiki/…"@
}

pub open spec fn ok() -> Seq<char> {
    "200 OK, HTML"@
}

/// TLS, TCP and IP each add a header; the link frame is the outermost.
pub open spec fn tls() -> Seq<char> {
    wrap("TLS"@, CIPHER@)
}

pub open spec fn tcp() -> Seq<char> {
    wrap("TCP:443"@, tls())
}

pub open spec fn ip() -> Seq<char> {
    wrap("IP"@, tcp())
}

pub open spec fn wifi() -> Seq<char> {
    wrap("WIFI"@, ip())
}

pub open spec fn frame() -> Seq<char> {
    wrap("FRAME"@, ip())
}

fn wrap_exec(header: &str, inner: &str) -> (s: String)
    ensures
        s@ == wrap(header@, inner@),
{
    let mut s = String::new();
    push_str(&mut s, header);
    push_str(&mut s, " ▸ ");
    push_str(&mut s, inner);
    s
}

fn get_exec() -> (s: String)
    ensures
        s@ == get(),
{
    let mut s = String::new();
    push_str(&mut s, "GET /wiki/…");
    s
}

fn ok_exec() -> (s: String)
    ensures
        s@ == ok(),
{
    let mut s = String::new();
    push_str(&mut s, "200 OK, HTML");
    s
}

fn tls_exec() -> (s: String)
    ensures
        s@ == tls(),
{
    wrap_exec("TLS", CIPHER)
}

fn tcp_exec() -> (s: String)
    ensures
        s@ == tcp(),
{
    let inner = tls_exec();
    wrap_exec("TCP:443", inner.as_str())
}

fn ip_exec() -> (s: String)
    ensures
        s@ == ip(),
{
    let inner = tcp_exec();
    wrap_exec("IP", inner.as_str())
}

fn wifi_exec() -> (s: String)
    ensures
        s@ == wifi(),
{
    let inner = ip_exec();
    wrap_exec("WIFI", inner.as_str())
}

fn frame_exec() -> (s: String)
    ensures
        s@ == frame(),
{
    let inner = ip_exec();
    wrap_exec("FRAME", inner.as_str())
}

/// The script, in time order.
#[verifier::opaque]
pub open spec fn script() -> Seq<(u64, EvV)> {
    seq![
        (0u64, EvV::Stack(get())),
        (0u64, EvV::Note("The browser writes its request, a few hundred bytes of plain text."@)),
        (1500u64, EvV::Stack(tls())),
        (1500u64, EvV::Note("TLS encrypts it with the session key. From here on, no machine along the path can read it."@)),
        (3000u64, EvV::Stack(tcp())),
        (3000u64, EvV::Note("TCP adds its header: the destination port (which program on the server) and a sequence number (where these bytes sit in the stream)."@)),
        (4500u64, EvV::Stack(ip())),
        (4500u64, EvV::Note("IP adds the source and destination addresses, the only part routers along the way will read."@)),
        (6000u64, EvV::Stack(wifi())),
        (6000u64, EvV::Note("The Wi-Fi frame addresses the packet one hop only, to your home router, nothing further."@)),
        (6000u64, EvV::Move(1usize)),
        (7500u64, EvV::Stack(frame())),
        (7500u64, EvV::Note("Your home router strips the frame, rewrites your private source address to your public one (NAT), and wraps the same packet in a new frame for the ISP link."@)),
        (8900u64, EvV::Move(2usize)),
        (10400u64, EvV::Note("Your ISP's router repeats the move: strip the frame, read the IP destination, wrap a new frame for the next link. Nothing inside is touched."@)),
        (11800u64, EvV::Move(3usize)),
        (13300u64, EvV::Note("The packet crosses onto a backbone network owned by someone else entirely. Same swap, no coordination needed, nothing read past the IP header."@)),
        (14700u64, EvV::Move(4usize)),
        (16200u64, EvV::Note("A last boundary into the server's network, a last new frame. The IP header and everything inside it are unchanged since your device."@)),
        (17600u64, EvV::Move(5usize)),
        (19100u64, EvV::Stack(ip())),
        (19100u64, EvV::Note("The server unwraps in reverse. The frame has served its final hop."@)),
        (20600u64, EvV::Stack(tcp())),
        (20600u64, EvV::Note("The IP header carried it across the world and is done."@)),
        (22100u64, EvV::Stack(tls())),
        (22100u64, EvV::Note("TCP slotted the bytes into order and hands over a clean stream."@)),
        (23600u64, EvV::Stack(get())),
        (23600u64, EvV::Note("And only the server, holding the session key, turns the ciphertext back into the request."@)),
        (25900u64, EvV::Stack(frame())),
        (25900u64, EvV::Note("The response \"200 OK\" and the page, is encrypted with the same session key and wrapped in the same layers for the trip back."@)),
        (27400u64, EvV::Note("It retraces the path (as dozens of packets, in reality), each hop again replacing only the outermost frame."@)),
        (27400u64, EvV::Move(4usize)),
        (29900u64, EvV::Move(3usize)),
        (32400u64, EvV::Move(2usize)),
        (34900u64, EvV::Move(1usize)),
        (36400u64, EvV::Stack(wifi())),
        (37400u64, EvV::Move(0usize)),
        (38900u64, EvV::Stack(tls())),
        (38900u64, EvV::Note("Your device unwraps in the same order, frame, IP, and TCP have each done their job."@)),
        (40400u64, EvV::Stack(ok())),
        (40400u64, EvV::Note("And your browser, holding the session key, decrypts the page. Only the two endpoints ever saw plain bytes."@)),
    ]
}

/// The script as events.
pub fn timeline() -> (v: Vec<(u64, Ev)>)
    ensures
        events_view(v@) == script(),
        time_ordered(script()),
{
    let mut v: Vec<(u64, Ev)> = Vec::new();
    v.push((0u64, Ev::Stack(get_exec())));
    v.push((0u64, Ev::Note("The browser writes its request, a few hundred bytes of plain text.")));
    v.push((1500u64, Ev::Stack(tls_exec())));
    v.push((1500u64, Ev::Note("TLS encrypts it with the session key. From here on, no machine along the path can read it.")));
    v.push((3000u64, Ev::Stack(tcp_exec())));
    v.push((3000u64, Ev::Note("TCP adds its header: the destination port (which program on the server) and a sequence number (where these bytes sit in the stream).")));
    v.push((4500u64, Ev::Stack(ip_exec())));
    v.push((4500u64, Ev::Note("IP adds the source and destination addresses, the only part routers along the way will read.")));
    v.push((6000u64, Ev::Stack(wifi_exec())));
    v.push((6000u64, Ev::Note("The Wi-Fi frame addresses the packet one hop only, to your home router, nothing further.")));
    v.push((6000u64, Ev::Move(1)));
    v.push((7500u64, Ev::Stack(frame_exec())));
    v.push((7500u64, Ev::Note("Your home router strips the frame, rewrites your private source address to your public one (NAT), and wraps the same packet in a new frame for the ISP link.")));
    v.push((8900u64, Ev::Move(2)));
    v.push((10400u64, Ev::Note("Your ISP's router repeats the move: strip the frame, read the IP destination, wrap a new frame for the next link. Nothing inside is touched.")));
    v.push((11800u64, Ev::Move(3)));
    v.push((13300u64, Ev::Note("The packet crosses onto a backbone network owned by someone else entirely. Same swap, no coordination needed, nothing read past the IP header.")));
    v.push((14700u64, Ev::Move(4)));
    v.push((16200u64, Ev::Note("A last boundary into the server's network, a last new frame. The IP header and everything inside it are unchanged since your device.")));
    v.push((17600u64, Ev::Move(5)));
    v.push((19100u64, Ev::Stack(ip_exec())));
    v.push((19100u64, Ev::Note("The server unwraps in reverse. The frame has served its final hop.")));
    v.push((20600u64, Ev::Stack(tcp_exec())));
    v.push((20600u64, Ev::Note("The IP header carried it across the world and is done.")));
    v.push((22100u64, Ev::Stack(tls_exec())));
    v.push((22100u64, Ev::Note("TCP slotted the bytes into order and hands over a clean stream.")));
    v.push((23600u64, Ev::Stack(get_exec())));
    v.push((23600u64, Ev::Note("And only the server, holding the session key, turns the ciphertext back into the request.")));
    v.push((25900u64, Ev::Stack(frame_exec())));
    v.push((25900u64, Ev::Note("The response \"200 OK\" and the page, is encrypted with the same session key and wrapped in the same layers for the trip back.")));
    v.push((27400u64, Ev::Note("It retraces the path (as dozens of packets, in reality), each hop again replacing only the outermost frame.")));
    v.push((27400u64, Ev::Move(4)));
    v.push((29900u64, Ev::Move(3)));
    v.push((32400u64, Ev::Move(2)));
    v.push((34900u64, Ev::Move(1)));
    v.push((36400u64, Ev::Stack(wifi_exec())));
    v.push((37400u64, Ev::Move(0)));
    v.push((38900u64, Ev::Stack(tls_exec())));
    v.push((38900u64, Ev::Note("Your device unwraps in the same order, frame, IP, and TCP have each done their job.")));
    v.push((40400u64, Ev::Stack(ok_exec())));
    v.push((40400u64, Ev::Note("And your browser, holding the session key, decrypts the page. Only the two endpoints ever saw plain bytes.")));
    proof {
        reveal(script);
        assert(events_view(v@) =~= script());
    }
    v
}

/// The Encapsulation sim as a looping animation.
pub struct Encapsulation;

impl Encapsulation {
    pub fn duration(&self) -> (d: u64)
        ensures
            d == DURATION,
    {
        DURATION
    }

    /// State at `t` (looped): the script replayed up to `t`; the packet
    /// moves over `HOP_MS` from the hop it left.
    pub fn state_at(&self, t: u64) -> (st: crate::story::Scene)
        ensures
            ({
                let tt = (t as nat) % (DURATION as nat);
                let r = replay_from(script(), tt, 0, start(get()));
                &&& st.stack@ == r.stack
                &&& st.note@ == r.note
                &&& st.from == r.from
                &&& st.to == r.to
                &&& st.elapsed == (if tt >= r.mstart { tt - r.mstart } else { 0 })
            }),
    {
        let tt = t % DURATION;
        let events = timeline();
        let s = get_exec();
        replay(&events, tt, s.as_str())
    }
}

} // verus!
