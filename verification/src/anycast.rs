//! Anycast sim: three edge servers announce the same address; each client is
//! routed to the announcer with the shortest BGP path.
use vstd::prelude::*;
use crate::schedule::{caption_ms, caption_time, max_nat};
use crate::text::{dec, push_dec, push_str};
use crate::rank::{first_min, first_min_spec, is_first_min, lemma_first_min_unique, order_by_key, sorted_order};

verus! {

pub const IP: &'static str = "203.0.113.5";
pub const FLY: u64 = 750;
pub const PAUSE: u64 = 1500;

/// Caption timing: 28 ms per byte, clamped to 1100..3800 ms.
pub open spec fn cap(s: Seq<char>) -> nat {
    caption_time(s, 28, 1100, 3800)
}

fn cap_exec(s: &str) -> (r: u64)
    ensures
        r == cap(s@),
        r <= 3800,
{
    caption_ms(s, 28, 1100, 3800)
}

pub open spec fn edge_city(e: int) -> Seq<char> {
    if e == 0 { "São Paulo"@ } else if e == 1 { "London"@ } else { "Tokyo"@ }
}

pub open spec fn client_city(c: int) -> Seq<char> {
    if c == 0 { "Lisbon"@ } else if c == 1 { "Sydney"@ } else { "Buenos Aires"@ }
}

/// BGP path length from client `c` to edge `e` (São Paulo, London, Tokyo).
pub open spec fn hops(c: int) -> Seq<u64> {
    if c == 0 { seq![6u64, 2, 9] } else if c == 1 { seq![8u64, 9, 3] } else { seq![2u64, 7, 10] }
}

fn edge_city_exec(e: usize) -> (s: &'static str)
    requires
        e < 3,
    ensures
        s@ == edge_city(e as int),
{
    if e == 0 { "São Paulo" } else if e == 1 { "London" } else { "Tokyo" }
}

fn client_city_exec(c: usize) -> (s: &'static str)
    requires
        c < 3,
    ensures
        s@ == client_city(c as int),
{
    if c == 0 { "Lisbon" } else if c == 1 { "Sydney" } else { "Buenos Aires" }
}

fn hops_exec(c: usize) -> (v: Vec<u64>)
    requires
        c < 3,
    ensures
        v@ == hops(c as int),
{
    let v = if c == 0 { vec![6u64, 2, 9] } else if c == 1 { vec![8u64, 9, 3] } else { vec![2u64, 7, 10] };
    assert(v@ =~= hops(c as int));
    v
}

/// "City (hops)" for each edge along `order`, joined by ", ".
pub open spec fn route_list(c: int, order: Seq<usize>) -> Seq<char>
    decreases order.len(),
{
    if order.len() == 0 {
        seq![]
    } else {
        let item = edge_city(order.last() as int) + " ("@ + dec(hops(c)[order.last() as int] as nat) + ")"@;
        if order.len() == 1 { item } else { route_list(c, order.drop_last()) + ", "@ + item }
    }
}

pub open spec fn note_arrive(c: int) -> Seq<char> {
    "client, "@ + client_city(c) + " sends a request to "@ + IP@ + ", the same address everyone uses."@
}

pub open spec fn note_route(c: int, order: Seq<usize>) -> Seq<char> {
    "BGP compares AS path length to each announcer of "@ + IP@ + ": "@ + route_list(c, order)
        + ", shortest path wins, no different from any other route."@
}

pub open spec fn note_deliver(c: int, w: int) -> Seq<char> {
    if c == 0 {
        "Delivered to edge, "@ + edge_city(w)
            + ", the topologically closest machine announcing that address. Route length alone chooses it, with no DNS trick involved."@
    } else {
        "Delivered to edge, "@ + edge_city(w)
            + ", the topologically closest machine announcing that address, a different server than last time, same IP, no DNS trick involved."@
    }
}

/// Each client is served by an edge with the fewest hops, and the first such.
pub proof fn lemma_nearest_edge_wins(c: int)
    requires
        0 <= c < 3,
    ensures
        0 <= winner_of(c) < 3,
        forall|e: int| 0 <= e < 3 ==> hops(c)[winner_of(c)] <= #[trigger] hops(c)[e],
        forall|e: int| 0 <= e < winner_of(c) ==> hops(c)[winner_of(c)] < #[trigger] hops(c)[e],
{
    let w = if c == 0 { 1int } else if c == 1 { 2int } else { 0int };
    assert(is_first_min(hops(c), w));
    lemma_first_min_unique(hops(c), w, winner_of(c));
}

/// The winning edge of client `c`: the first with the fewest hops.
pub open spec fn winner_of(c: int) -> int {
    first_min_spec(hops(c))
}

/// The edges of client `c` in ascending hop order.
pub open spec fn order_of(c: int) -> Seq<usize> {
    sorted_order(hops(c))
}

pub open spec fn t_routing_of(c: int) -> nat {
    episode_start(c) + max_nat(cap(note_arrive(c)), 700)
}

pub open spec fn t_forward_of(c: int) -> nat {
    t_routing_of(c) + cap(note_route(c, order_of(c)))
}

/// End of episode `c`: the delivery caption (at least 900 ms) and the pause.
pub open spec fn episode_end(c: int) -> nat {
    t_forward_of(c) + max_nat(cap(note_deliver(c, winner_of(c))), 900) + PAUSE as nat
}

/// Each episode starts where the previous one ended.
pub open spec fn episode_start(c: int) -> nat
    decreases c,
{
    if c <= 0 {
        0
    } else {
        let p = c - 1;
        episode_start(p) + max_nat(cap(note_arrive(p)), 700) + cap(note_route(p, order_of(p)))
            + max_nat(cap(note_deliver(p, winner_of(p))), 900) + PAUSE as nat
    }
}

/// One client's episode: its edge ordering, the winner, stage times and captions.
pub struct Episode {
    pub start: u64,
    pub t_routing: u64,
    pub t_forward: u64,
    pub winner: usize,
    pub order: Vec<usize>,
    pub note_arrive: String,
    pub note_route: String,
    pub note_deliver: String,
}

pub open spec fn ep_ok(e: Episode, c: int) -> bool {
    &&& e.start == episode_start(c)
    &&& e.winner == winner_of(c)
    &&& e.order@ == order_of(c)
    &&& e.note_arrive@ == note_arrive(c)
    &&& e.note_route@ == note_route(c, order_of(c))
    &&& e.note_deliver@ == note_deliver(c, winner_of(c))
    &&& e.t_routing == t_routing_of(c)
    &&& e.t_forward == t_forward_of(c)
}

fn route_list_exec(c: usize, order: &Vec<usize>, hs: &Vec<u64>) -> (s: String)
    requires
        c < 3,
        hs@ == hops(c as int),
        forall|i: int| 0 <= i < order@.len() ==> #[trigger] order@[i] < 3,
    ensures
        s@ == route_list(c as int, order@),
{
    let mut s = String::new();
    let mut i: usize = 0;
    while i < order.len()
        invariant
            i <= order@.len(),
            c < 3,
            hs@ == hops(c as int),
            forall|j: int| 0 <= j < order@.len() ==> #[trigger] order@[j] < 3,
            s@ == route_list(c as int, order@.take(i as int)),
        decreases order@.len() - i,
    {
        let e = order[i];
        if i > 0 {
            push_str(&mut s, ", ");
        }
        push_str(&mut s, edge_city_exec(e));
        push_str(&mut s, " (");
        push_dec(&mut s, hs[e]);
        push_str(&mut s, ")");
        assert(order@.take(i + 1).drop_last() =~= order@.take(i as int));
        assert(order@.take(i + 1).last() == e);
        i = i + 1;
    }
    assert(order@.take(order@.len() as int) =~= order@);
    s
}

fn episode(c: usize, start: u64) -> (e: Episode)
    requires
        c < 3,
        start == episode_start(c as int),
        start <= 2 * (3800 * 3 + PAUSE),
    ensures
        ep_ok(e, c as int),
        episode_end(c as int) <= start + 3800 * 3 + PAUSE,
{
    let hs = hops_exec(c);
    let winner = first_min(&hs);
    let order = order_by_key(&hs);
    let city = client_city_exec(c);
    let mut note_arrive = String::new();
    push_str(&mut note_arrive, "client, ");
    push_str(&mut note_arrive, city);
    push_str(&mut note_arrive, " sends a request to ");
    push_str(&mut note_arrive, IP);
    push_str(&mut note_arrive, ", the same address everyone uses.");
    let mut note_route = String::new();
    push_str(&mut note_route, "BGP compares AS path length to each announcer of ");
    push_str(&mut note_route, IP);
    push_str(&mut note_route, ": ");
    let list = route_list_exec(c, &order, &hs);
    push_str(&mut note_route, list.as_str());
    push_str(&mut note_route, ", shortest path wins, no different from any other route.");
    let mut note_deliver = String::new();
    push_str(&mut note_deliver, "Delivered to edge, ");
    push_str(&mut note_deliver, edge_city_exec(winner));
    if c == 0 {
        push_str(&mut note_deliver,
            ", the topologically closest machine announcing that address. Route length alone chooses it, with no DNS trick involved.");
    } else {
        push_str(&mut note_deliver,
            ", the topologically closest machine announcing that address, a different server than last time, same IP, no DNS trick involved.");
    }
    let a = cap_exec(note_arrive.as_str());
    let t_routing = start + if a < 700 { 700 } else { a };
    let t_forward = t_routing + cap_exec(note_route.as_str());
    proof {
        let _ = cap(note_deliver@);
    }
    Episode { start, t_routing, t_forward, winner, order, note_arrive, note_route, note_deliver }
}

fn episode_end_exec(e: &Episode, Ghost(c): Ghost<int>) -> (r: u64)
    requires
        0 <= c < 3,
        ep_ok(*e, c),
        e.t_forward <= 3 * (3800 * 3 + PAUSE),
    ensures
        r == episode_end(c),
{
    let d = cap_exec(e.note_deliver.as_str());
    e.t_forward + if d < 900 { 900 } else { d } + PAUSE
}

/// The three episodes, Lisbon, Sydney and Buenos Aires, back to back.
pub fn episodes() -> (v: Vec<Episode>)
    ensures
        v@.len() == 3,
        forall|c: int| 0 <= c < 3 ==> #[trigger] ep_ok(v@[c], c),
        episode_end(2) <= 3 * (3800 * 3 + PAUSE),
{
    let e0 = episode(0, 0);
    let s1 = episode_end_exec(&e0, Ghost(0));
    proof { reveal_with_fuel(episode_start, 2); }
    let e1 = episode(1, s1);
    let s2 = episode_end_exec(&e1, Ghost(1));
    proof { reveal_with_fuel(episode_start, 2); }
    let e2 = episode(2, s2);
    let v = vec![e0, e1, e2];
    assert(ep_ok(v@[0], 0) && ep_ok(v@[1], 1) && ep_ok(v@[2], 2));
    v
}

/// Loop length (ms): the end of the last episode.
pub fn duration() -> (d: u64)
    ensures
        d == episode_end(2),
        d > 0,
{
    let v = episodes();
    assert(ep_ok(v@[2], 2));
    episode_end_exec(&v[2], Ghost(2))
}

/// What the anycast sim shows at one moment.
pub struct AnycastState {
    /// Client index (Lisbon, Sydney, Buenos Aires).
    pub client: usize,
    pub client_label: String,
    pub note: String,
    /// BGP is comparing paths: hop counts are shown on the routes.
    pub routing: bool,
    /// The request travels to the winning edge.
    pub forwarding: bool,
    pub winner: usize,
    /// Hop counts to each edge, shown while routing.
    pub hop_counts: Vec<u64>,
    /// Elapsed flight time, capped at `FLY`; progress is `flown / FLY`.
    pub flown: u64,
}

/// The episode in progress at `tt`.
pub open spec fn client_at(tt: nat) -> int {
    if tt >= episode_start(2) { 2 } else if tt >= episode_start(1) { 1 } else { 0 }
}

/// The anycast sim as a looping animation.
pub struct Anycast;

impl Anycast {
    pub fn duration(&self) -> (d: u64)
        ensures
            d == episode_end(2),
    {
        duration()
    }

    /// State at `t` (looped): the episode in progress; the route caption
    /// between the routing and forwarding marks, the delivery caption after.
    pub fn state_at(&self, t: u64) -> (st: AnycastState)
        ensures
            ({
                let tt = (t as nat) % episode_end(2);
                let c = client_at(tt);
                &&& st.client == c
                &&& st.client_label@ == "client, "@ + client_city(c)
                &&& st.routing == (t_routing_of(c) <= tt < t_forward_of(c))
                &&& st.forwarding == (tt >= t_forward_of(c))
                &&& st.note@ == (if st.forwarding { note_deliver(c, winner_of(c)) }
                    else if st.routing { note_route(c, order_of(c)) } else { note_arrive(c) })
                &&& st.winner == winner_of(c)
                &&& st.hop_counts@ == hops(c)
                &&& st.flown == (if st.forwarding { if tt - t_forward_of(c) < FLY { tt - t_forward_of(c) } else { FLY as int } } else { 0 })
            }),
    {
        let v = episodes();
        proof {
            assert(ep_ok(v@[0], 0));
            assert(ep_ok(v@[1], 1));
            assert(ep_ok(v@[2], 2));
        }
        let d = episode_end_exec(&v[2], Ghost(2));
        let tt = t % d;
        let c: usize = if tt >= v[2].start { 2 } else if tt >= v[1].start { 1 } else { 0 };
        let e = &v[c];
        let routing = e.t_routing <= tt && tt < e.t_forward;
        let forwarding = tt >= e.t_forward;
        let mut note = String::new();
        if forwarding {
            push_str(&mut note, e.note_deliver.as_str());
        } else if routing {
            push_str(&mut note, e.note_route.as_str());
        } else {
            push_str(&mut note, e.note_arrive.as_str());
        }
        let mut client_label = String::new();
        push_str(&mut client_label, "client, ");
        push_str(&mut client_label, client_city_exec(c));
        let flown = if forwarding { if tt - e.t_forward < FLY { tt - e.t_forward } else { FLY } } else { 0 };
        AnycastState {
            client: c,
            client_label,
            note,
            routing,
            forwarding,
            winner: e.winner,
            hop_counts: hops_exec(c),
            flown,
        }
    }
}

} // verus!
