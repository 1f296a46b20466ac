//! Router sim: a packet arrives, its header is read, TTL decremented, the
//! routing table searched by longest-prefix match, and the packet forwarded
//! out the winning line. Four destinations cycle.
use vstd::prelude::*;
use crate::ipbits::{agree, bit, bits_of};
use crate::schedule::{caption_ms, caption_time, max_nat};
use crate::text::{dec, push_dec, push_str};

verus! {

/// A routing-table entry: prefix and outgoing line.
pub struct Route {
    pub cidr: &'static str,
    pub octets: [u8; 4],
    pub prefix: usize,
    pub line: &'static str,
}

/// TTL of every arriving packet.
pub const TTL: u8 = 58;
pub const FLY_OUT: u64 = 750;
pub const PAUSE: u64 = 1400;

/// The destination lies inside the route's prefix.
pub open spec fn contains(dest: Seq<u8>, r: Route) -> bool {
    r.prefix <= 32 && agree(dest, r.octets@, r.prefix as int)
}

/// True when the first `prefix` bits of the destination equal the route's.
pub fn matches(octets: &[u8; 4], r: &Route) -> (b: bool)
    requires
        r.prefix <= 32,
    ensures
        b == contains(octets@, *r),
{
    let ob = bits_of(octets);
    let rb = bits_of(&r.octets);
    let mut i: usize = 0;
    while i < r.prefix
        invariant
            r.prefix <= 32,
            i <= r.prefix,
            ob@.len() == 32 && rb@.len() == 32,
            forall|k: int| 0 <= k < 32 ==> #[trigger] ob@[k] == bit(octets@, k),
            forall|k: int| 0 <= k < 32 ==> #[trigger] rb@[k] == bit(r.octets@, k),
            agree(octets@, r.octets@, i as int),
        decreases r.prefix - i,
    {
        if ob[i] != rb[i] {
            return false;
        }
        i = i + 1;
    }
    true
}

/// `i` is the route chosen for `dest`: it contains the destination, no
/// containing route is more specific, and among equally specific ones it is
/// the last in the table.
pub open spec fn is_best(table: Seq<Route>, dest: Seq<u8>, i: int) -> bool {
    &&& 0 <= i < table.len()
    &&& contains(dest, table[i])
    &&& forall|j: int| 0 <= j < table.len() && contains(dest, #[trigger] table[j]) ==> table[j].prefix <= table[i].prefix
    &&& forall|j: int| i < j < table.len() && contains(dest, #[trigger] table[j]) ==> table[j].prefix < table[i].prefix
}

/// Longest-prefix match over a table: the index of the most specific route
/// containing `dest` (the last of equals), or `None` when no route does.
pub fn longest_match(dest: &[u8; 4], table: &Vec<Route>) -> (best: Option<usize>)
    requires
        forall|j: int| 0 <= j < table@.len() ==> (#[trigger] table@[j]).prefix <= 32,
    ensures
        best == (match lpm_upto(table@, dest@, table@.len() as int) { Some(b) => Some(b as usize), None => None::<usize> }),
        match best {
            Some(i) => is_best(table@, dest@, i as int),
            None => forall|j: int| 0 <= j < table@.len() ==> !contains(dest@, #[trigger] table@[j]),
        },
{
    let mut best: Option<usize> = None;
    let mut i: usize = 0;
    while i < table.len()
        invariant
            i <= table@.len(),
            forall|j: int| 0 <= j < table@.len() ==> (#[trigger] table@[j]).prefix <= 32,
            best == (match lpm_upto(table@, dest@, i as int) { Some(b) => Some(b as usize), None => None::<usize> }),
        decreases table@.len() - i,
    {
        proof { lemma_lpm_upto(table@, dest@, i as int); }
        if matches(dest, &table[i]) {
            match best {
                Some(b) => {
                    if table[i].prefix >= table[b].prefix {
                        best = Some(i);
                    }
                },
                None => {
                    best = Some(i);
                },
            }
        }
        i = i + 1;
    }
    proof { lemma_lpm_upto(table@, dest@, i as int); }
    best
}

pub open spec fn cidr_of(i: int) -> Seq<char> {
    if i == 0 { "0.0.0.0/0"@ } else if i == 1 { "91.198.0.0/16"@ } else if i == 2 { "91.198.174.0/24"@ } else { "10.0.0.0/8"@ }
}

pub open spec fn octets_of(i: int) -> Seq<u8> {
    if i == 0 { seq![0u8, 0, 0, 0] } else if i == 1 { seq![91u8, 198, 0, 0] } else if i == 2 { seq![91u8, 198, 174, 0] } else { seq![10u8, 0, 0, 0] }
}

pub open spec fn prefix_of(i: int) -> usize {
    if i == 0 { 0 } else if i == 1 { 16 } else if i == 2 { 24 } else { 8 }
}

pub open spec fn line_of(i: int) -> Seq<char> {
    if i == 0 { "line 1"@ } else if i == 1 { "line 2"@ } else if i == 2 { "line 3"@ } else { "line 5"@ }
}

pub open spec fn is_entry(r: Route, i: int) -> bool {
    r.cidr@ == cidr_of(i) && r.octets@ == octets_of(i) && r.prefix == prefix_of(i) && r.line@ == line_of(i)
}

/// The router's table.
pub open spec fn is_table(t: Seq<Route>) -> bool {
    t.len() == 4 && forall|i: int| 0 <= i < 4 ==> is_entry(#[trigger] t[i], i)
}

pub fn table() -> (v: Vec<Route>)
    ensures
        is_table(v@),
{
    let v = vec![
        Route { cidr: "0.0.0.0/0", octets: [0, 0, 0, 0], prefix: 0, line: "line 1" },
        Route { cidr: "91.198.0.0/16", octets: [91, 198, 0, 0], prefix: 16, line: "line 2" },
        Route { cidr: "91.198.174.0/24", octets: [91, 198, 174, 0], prefix: 24, line: "line 3" },
        Route { cidr: "10.0.0.0/8", octets: [10, 0, 0, 0], prefix: 8, line: "line 5" },
    ];
    assert(v@[0].octets@ =~= octets_of(0));
    assert(v@[1].octets@ =~= octets_of(1));
    assert(v@[2].octets@ =~= octets_of(2));
    assert(v@[3].octets@ =~= octets_of(3));
    v
}

/// The default route contains every address, so every lookup in this table
/// finds a route.
pub proof fn lemma_default_route_always_matches(t: Seq<Route>, dest: Seq<u8>)
    requires
        is_table(t),
    ensures
        contains(dest, t[0]),
{
    assert(is_entry(t[0], 0));
}

/// The route the router uses for `octets` (index into `table()`).
pub fn best_route(octets: &[u8; 4]) -> (i: usize)
    ensures
        forall|t: Seq<Route>| #[trigger] is_table(t) ==> is_best(t, octets@, i as int) && i == lpm(t, octets@),
{
    let t = table();
    proof { lemma_default_route_always_matches(t@, octets@); }
    let b = longest_match(octets, &t);
    let i = match b { Some(i) => i, None => 0 };
    proof {
        assert forall|q: Seq<Route>| #[trigger] is_table(q) implies is_best(q, octets@, i as int) && i == lpm(q, octets@) by {
            assert forall|j: int| 0 <= j < 4 implies contains(octets@, #[trigger] q[j]) == contains(octets@, t@[j]) && q[j].prefix == t@[j].prefix by {
                assert(is_entry(q[j], j));
                assert(is_entry(t@[j], j));
            }
            lemma_lpm_same(q, t@, octets@, 4);
            lemma_default_route_always_matches(q, octets@);
            lemma_lpm_is_best(q, octets@, 0);
        }
    }
    i
}

/// Dotted-decimal text of an address.
pub open spec fn ip_text_spec(o: Seq<u8>) -> Seq<char> {
    dec(o[0] as nat) + "."@ + dec(o[1] as nat) + "."@ + dec(o[2] as nat) + "."@ + dec(o[3] as nat)
}

pub fn ip_text(o: &[u8; 4]) -> (s: String)
    ensures
        s@ == ip_text_spec(o@),
{
    let mut s = String::new();
    push_dec(&mut s, o[0] as u64);
    push_str(&mut s, ".");
    push_dec(&mut s, o[1] as u64);
    push_str(&mut s, ".");
    push_dec(&mut s, o[2] as u64);
    push_str(&mut s, ".");
    push_dec(&mut s, o[3] as u64);
    assert(s@ =~= ip_text_spec(o@));
    s
}

/// The best route is unique.
pub proof fn lemma_best_unique(t: Seq<Route>, d: Seq<u8>, i: int, k: int)
    requires
        is_best(t, d, i),
        is_best(t, d, k),
    ensures
        i == k,
{
    if i < k {
        assert(t[k].prefix < t[i].prefix);
    } else if k < i {
        assert(t[i].prefix < t[k].prefix);
    }
}

/// The route chosen for `d` among the first `n` entries: scanning in order,
/// a containing route replaces the choice when it is at least as specific.
pub open spec fn lpm_upto(t: Seq<Route>, d: Seq<u8>, n: int) -> Option<int>
    decreases n,
{
    if n <= 0 {
        None
    } else {
        let prev = lpm_upto(t, d, n - 1);
        if contains(d, t[n - 1]) && (prev is None || t[n - 1].prefix >= t[prev->0].prefix) {
            Some(n - 1)
        } else {
            prev
        }
    }
}

/// The index of the route chosen for `d` (0 when none contains it).
pub open spec fn lpm(t: Seq<Route>, d: Seq<u8>) -> int {
    match lpm_upto(t, d, t.len() as int) {
        Some(i) => i,
        None => 0,
    }
}

pub proof fn lemma_lpm_upto(t: Seq<Route>, d: Seq<u8>, n: int)
    requires
        0 <= n <= t.len(),
    ensures
        match lpm_upto(t, d, n) {
            Some(b) => 0 <= b < n && contains(d, t[b])
                && (forall|j: int| 0 <= j < n && contains(d, #[trigger] t[j]) ==> t[j].prefix <= t[b].prefix)
                && (forall|j: int| b < j < n && contains(d, #[trigger] t[j]) ==> t[j].prefix < t[b].prefix),
            None => forall|j: int| 0 <= j < n ==> !contains(d, #[trigger] t[j]),
        },
    decreases n,
{
    if n > 0 {
        lemma_lpm_upto(t, d, n - 1);
    }
}

/// The longest-prefix choice is the best route whenever some route contains
/// the destination.
pub proof fn lemma_lpm_is_best(t: Seq<Route>, d: Seq<u8>, j: int)
    requires
        0 <= j < t.len(),
        contains(d, t[j]),
    ensures
        is_best(t, d, lpm(t, d)),
{
    lemma_lpm_upto(t, d, t.len() as int);
}

/// CIDR texts of the routes containing `d`, in table order, joined by ", ".
pub open spec fn matching_cidrs(t: Seq<Route>, d: Seq<u8>) -> Seq<char>
    decreases t.len(),
{
    if t.len() == 0 {
        seq![]
    } else if !contains(d, t.last()) {
        matching_cidrs(t.drop_last(), d)
    } else if matching_cidrs(t.drop_last(), d).len() == 0 {
        t.last().cidr@
    } else {
        matching_cidrs(t.drop_last(), d) + ", "@ + t.last().cidr@
    }
}

pub open spec fn matching_count(t: Seq<Route>, d: Seq<u8>) -> nat
    decreases t.len(),
{
    if t.len() == 0 {
        0
    } else {
        matching_count(t.drop_last(), d) + if contains(d, t.last()) { 1nat } else { 0nat }
    }
}

/// The four arriving packets' destinations.
pub open spec fn packet(p: int) -> Seq<u8> {
    if p == 0 { seq![91u8, 198, 174, 192] } else if p == 1 { seq![91u8, 198, 5, 10] } else if p == 2 { seq![10u8, 1, 2, 3] } else { seq![8u8, 8, 8, 8] }
}

fn packet_exec(p: usize) -> (o: [u8; 4])
    requires
        p < 4,
    ensures
        o@ == packet(p as int),
{
    let o: [u8; 4] = if p == 0 { [91, 198, 174, 192] } else if p == 1 { [91, 198, 5, 10] } else if p == 2 { [10, 1, 2, 3] } else { [8, 8, 8, 8] };
    assert(o@ =~= packet(p as int));
    o
}

/// Caption timing of this sim: 28 ms per byte, clamped to 1000..4200 ms.
pub open spec fn cap(s: Seq<char>) -> nat {
    caption_time(s, 28, 1000, 4200)
}

/// The five captions of the episode for destination `d` (arriving, reading,
/// TTL, lookup, forwarding).
pub open spec fn caption(t: Seq<Route>, d: Seq<u8>, k: int) -> Seq<char> {
    let ip = ip_text_spec(d);
    let b = t[lpm(t, d)];
    if k == 0 {
        "Packet arrives on the \"in\" line: destination "@ + ip + ", ttl "@ + dec(58) + "."@
    } else if k == 1 {
        "Router reads the header: destination "@ + ip + ", ttl "@ + dec(58) + "."@
    } else if k == 2 {
        "TTL decremented to "@ + dec(57) + ", one hop closer to being discarded if this packet is ever looping."@
    } else if k == 3 {
        if matching_count(t, d) > 1 {
            "Checking the table: "@ + matching_cidrs(t, d) + " all match. Longest prefix wins, "@ + b.cidr@
                + " is the most specific, so "@ + b.line@ + "."@
        } else {
            "Checking the table: only 0.0.0.0/0 matches, the catch-all default. Forwarding out line 1."@
        }
    } else {
        "Forwarded out "@ + b.line@ + ", toward "@ + b.cidr@ + ", carrying ttl "@ + dec(57) + "."@
    }
}

/// One episode: stage boundaries (absolute ms in the loop) and captions.
pub struct Episode {
    pub start: u64,
    pub t_read: u64,
    pub t_ttl: u64,
    pub t_lookup: u64,
    pub t_forward: u64,
    pub caps: Vec<String>,
}

/// Length of the episode for `d` (ms).
pub open spec fn episode_len(t: Seq<Route>, d: Seq<u8>) -> nat {
    max_nat(cap(caption(t, d, 0)), 700) + cap(caption(t, d, 1)) + cap(caption(t, d, 2)) + cap(caption(t, d, 3))
        + max_nat(cap(caption(t, d, 4)), FLY_OUT as nat) + PAUSE as nat
}

/// Start of episode `p` (ms): the lengths of the earlier ones.
pub open spec fn episode_start(t: Seq<Route>, p: int) -> nat
    decreases p,
{
    if p <= 0 { 0 } else { episode_start(t, p - 1) + episode_len(t, packet(p - 1)) }
}

pub open spec fn episode_ok(t: Seq<Route>, e: Episode, p: int) -> bool {
    let d = packet(p);
    &&& e.caps@.len() == 5
    &&& forall|k: int| 0 <= k < 5 ==> (#[trigger] e.caps@[k])@ == caption(t, d, k)
    &&& e.start == episode_start(t, p)
    &&& e.t_read == e.start + max_nat(cap(caption(t, d, 0)), 700)
    &&& e.t_ttl == e.t_read + cap(caption(t, d, 1))
    &&& e.t_lookup == e.t_ttl + cap(caption(t, d, 2))
    &&& e.t_forward == e.t_lookup + cap(caption(t, d, 3))
}

fn caption_exec(t: &Vec<Route>, d: &[u8; 4], k: usize) -> (s: String)
    requires
        is_table(t@),
        k < 5,
    ensures
        s@ == caption(t@, d@, k as int),
{
    let ip = ip_text(d);
    let b = best_route(d);
    proof {
        assert(b as int == lpm(t@, d@));
    }
    let r = &t[b];
    let mut s = String::new();
    if k == 0 {
        push_str(&mut s, "Packet arrives on the \"in\" line: destination ");
        push_str(&mut s, ip.as_str());
        push_str(&mut s, ", ttl ");
        push_dec(&mut s, 58);
        push_str(&mut s, ".");
    } else if k == 1 {
        push_str(&mut s, "Router reads the header: destination ");
        push_str(&mut s, ip.as_str());
        push_str(&mut s, ", ttl ");
        push_dec(&mut s, 58);
        push_str(&mut s, ".");
    } else if k == 2 {
        push_str(&mut s, "TTL decremented to ");
        push_dec(&mut s, 57);
        push_str(&mut s, ", one hop closer to being discarded if this packet is ever looping.");
    } else if k == 3 {
        let mut list = String::new();
        let mut count: u64 = 0;
        let mut i: usize = 0;
        while i < 4
            invariant
                i <= 4,
                is_table(t@),
                count == matching_count(t@.take(i as int), d@),
                count <= i,
                list@ == matching_cidrs(t@.take(i as int), d@),
            decreases 4 - i,
        {
            assert(t@.take(i + 1).drop_last() =~= t@.take(i as int));
            assert(t@.take(i + 1).last() == t@[i as int]);
            assert(is_entry(t@[i as int], i as int));
            if matches(d, &t[i]) {
                if count > 0 {
                    push_str(&mut list, ", ");
                }
                proof {
                    reveal_strlit("0.0.0.0/0");
                    reveal_strlit("91.198.0.0/16");
                    reveal_strlit("91.198.174.0/24");
                    reveal_strlit("10.0.0.0/8");
                    assert forall|j: int| 0 <= j < i implies (#[trigger] t@.take(i as int)[j]).cidr@.len() > 0 by {
                        assert(is_entry(t@[j], j));
                    }
                    lemma_cidrs_empty_iff_zero(t@.take(i as int), d@);
                }
                push_str(&mut list, t[i].cidr);
                count = count + 1;
            }
            i = i + 1;
        }
        assert(t@.take(4) =~= t@);
        if count > 1 {
            push_str(&mut s, "Checking the table: ");
            push_str(&mut s, list.as_str());
            push_str(&mut s, " all match. Longest prefix wins, ");
            push_str(&mut s, r.cidr);
            push_str(&mut s, " is the most specific, so ");
            push_str(&mut s, r.line);
            push_str(&mut s, ".");
        } else {
            push_str(&mut s, "Checking the table: only 0.0.0.0/0 matches, the catch-all default. Forwarding out line 1.");
        }
    } else {
        push_str(&mut s, "Forwarded out ");
        push_str(&mut s, r.line);
        push_str(&mut s, ", toward ");
        push_str(&mut s, r.cidr);
        push_str(&mut s, ", carrying ttl ");
        push_dec(&mut s, 57);
        push_str(&mut s, ".");
    }
    assert(s@ =~= caption(t@, d@, k as int));
    s
}

proof fn lemma_cidrs_empty_iff_zero(t: Seq<Route>, d: Seq<u8>)
    requires
        forall|i: int| 0 <= i < t.len() ==> (#[trigger] t[i]).cidr@.len() > 0,
    ensures
        (matching_cidrs(t, d).len() == 0) <==> (matching_count(t, d) == 0),
    decreases t.len(),
{
    if t.len() > 0 {
        lemma_cidrs_empty_iff_zero(t.drop_last(), d);
        assert(t.last().cidr@.len() > 0);
    }
}

fn cap_exec(s: &String) -> (r: u64)
    ensures
        r == cap(s@),
        r <= 4200,
{
    caption_ms(s.as_str(), 28, 1000, 4200)
}

/// The four episodes of one loop, back to back.
pub fn episodes() -> (v: Vec<Episode>)
    ensures
        v@.len() == 4,
        forall|t: Seq<Route>, p: int| is_table(t) && 0 <= p < 4 ==> #[trigger] episode_ok(t, v@[p], p),
        forall|p: int| 0 <= p < 4 ==> (#[trigger] v@[p]).caps@.len() == 5 && v@[p].t_forward <= 22400 * 4,
{
    let t = table();
    let mut v: Vec<Episode> = Vec::new();
    let mut start: u64 = 0;
    let mut p: usize = 0;
    while p < 4
        invariant
            p <= 4,
            is_table(t@),
            v@.len() == p,
            start == episode_start(t@, p as int),
            start <= 22400 * p,
            forall|q: int| 0 <= q < p ==> #[trigger] episode_ok(t@, v@[q], q),
            forall|q: int| 0 <= q < p ==> (#[trigger] v@[q]).caps@.len() == 5 && v@[q].t_forward <= 22400 * 4,
        decreases 4 - p,
    {
        let d = packet_exec(p);
        let mut caps: Vec<String> = Vec::new();
        let mut k: usize = 0;
        while k < 5
            invariant
                k <= 5,
                is_table(t@),
                d@ == packet(p as int),
                caps@.len() == k,
                forall|j: int| 0 <= j < k ==> (#[trigger] caps@[j])@ == caption(t@, d@, j),
            decreases 5 - k,
        {
            caps.push(caption_exec(&t, &d, k));
            k = k + 1;
        }
        let c0 = cap_exec(&caps[0]);
        let t_read = start + if c0 < 700 { 700 } else { c0 };
        let t_ttl = t_read + cap_exec(&caps[1]);
        let t_lookup = t_ttl + cap_exec(&caps[2]);
        let t_forward = t_lookup + cap_exec(&caps[3]);
        let c4 = cap_exec(&caps[4]);
        let end = t_forward + if c4 < FLY_OUT { FLY_OUT } else { c4 } + PAUSE;
        let e = Episode { start, t_read, t_ttl, t_lookup, t_forward, caps };
        assert(episode_ok(t@, e, p as int));
        v.push(e);
        start = end;
        p = p + 1;
    }
    proof {
        assert forall|q: Seq<Route>, r: int| is_table(q) && 0 <= r < 4 implies #[trigger] episode_ok(q, v@[r], r) by {
            lemma_same_table(q, t@);
            assert(episode_ok(t@, v@[r], r));
        }
    }
    v
}

proof fn lemma_same_table(a: Seq<Route>, b: Seq<Route>)
    requires
        is_table(a),
        is_table(b),
    ensures
        forall|d: Seq<u8>, k: int| #[trigger] caption(a, d, k) == caption(b, d, k),
        forall|p: int| #[trigger] episode_start(a, p) == episode_start(b, p),
        forall|e: Episode, p: int| #[trigger] episode_ok(a, e, p) == episode_ok(b, e, p),
{
    assert forall|d: Seq<u8>, k: int| #[trigger] caption(a, d, k) == caption(b, d, k) by {
        lemma_tables_agree(a, b, d);
    }
    assert forall|p: int| #[trigger] episode_start(a, p) == episode_start(b, p) by {
        lemma_start_agree(a, b, p);
    }
}

proof fn lemma_start_agree(a: Seq<Route>, b: Seq<Route>, p: int)
    requires
        is_table(a),
        is_table(b),
        forall|d: Seq<u8>, k: int| #[trigger] caption(a, d, k) == caption(b, d, k),
    ensures
        episode_start(a, p) == episode_start(b, p),
    decreases p,
{
    if p > 0 {
        lemma_start_agree(a, b, p - 1);
        assert(caption(a, packet(p - 1), 0) == caption(b, packet(p - 1), 0));
        assert(caption(a, packet(p - 1), 1) == caption(b, packet(p - 1), 1));
        assert(caption(a, packet(p - 1), 2) == caption(b, packet(p - 1), 2));
        assert(caption(a, packet(p - 1), 3) == caption(b, packet(p - 1), 3));
        assert(caption(a, packet(p - 1), 4) == caption(b, packet(p - 1), 4));
    }
}

proof fn lemma_prefix_agree(a: Seq<Route>, b: Seq<Route>, d: Seq<u8>, n: int)
    requires
        0 <= n <= a.len(),
        a.len() == b.len(),
        forall|i: int| 0 <= i < a.len() ==> (#[trigger] a[i]).cidr@ == b[i].cidr@ && a[i].octets@ == b[i].octets@
            && a[i].prefix == b[i].prefix && a[i].line@ == b[i].line@,
    ensures
        matching_cidrs(a.take(n), d) == matching_cidrs(b.take(n), d),
        matching_count(a.take(n), d) == matching_count(b.take(n), d),
    decreases n,
{
    if n > 0 {
        lemma_prefix_agree(a, b, d, n - 1);
        assert(a.take(n).drop_last() =~= a.take(n - 1));
        assert(b.take(n).drop_last() =~= b.take(n - 1));
        assert(a.take(n).last() == a[n - 1]);
        assert(b.take(n).last() == b[n - 1]);
    }
}

proof fn lemma_tables_agree(a: Seq<Route>, b: Seq<Route>, d: Seq<u8>)
    requires
        is_table(a),
        is_table(b),
    ensures
        forall|k: int| #[trigger] caption(a, d, k) == caption(b, d, k),
{
    assert forall|i: int| 0 <= i < a.len() implies (#[trigger] a[i]).cidr@ == b[i].cidr@ && a[i].octets@ == b[i].octets@
        && a[i].prefix == b[i].prefix && a[i].line@ == b[i].line@ by {
        assert(is_entry(a[i], i));
        assert(is_entry(b[i], i));
    }
    lemma_prefix_agree(a, b, d, 4);
    assert(a.take(4) =~= a);
    assert(b.take(4) =~= b);
    assert forall|i: int| 0 <= i < a.len() implies contains(d, #[trigger] a[i]) == contains(d, b[i]) && a[i].prefix == b[i].prefix by {
        assert(is_entry(a[i], i));
        assert(is_entry(b[i], i));
    }
    lemma_lpm_same(a, b, d, 4);
    lemma_lpm_upto(a, d, 4);
    let i = lpm(a, d);
    assert(0 <= i < 4);
    assert(a[i].cidr@ == b[i].cidr@ && a[i].line@ == b[i].line@);
}

proof fn lemma_lpm_same(a: Seq<Route>, b: Seq<Route>, d: Seq<u8>, n: int)
    requires
        0 <= n <= a.len(),
        a.len() == b.len(),
        forall|i: int| 0 <= i < a.len() ==> contains(d, #[trigger] a[i]) == contains(d, b[i]) && a[i].prefix == b[i].prefix,
    ensures
        lpm_upto(a, d, n) == lpm_upto(b, d, n),
    decreases n,
{
    if n > 0 {
        lemma_lpm_same(a, b, d, n - 1);
        lemma_lpm_upto(a, d, n - 1);
        assert(contains(d, a[n - 1]) == contains(d, b[n - 1]));
        if let Some(p) = lpm_upto(a, d, n - 1) {
            assert(contains(d, a[p]) == contains(d, b[p]));
        }
    }
}

/// Length of one loop of the router sim (ms): the four episodes.
pub fn duration() -> (d: u64)
    ensures
        forall|t: Seq<Route>| #[trigger] is_table(t) ==> d == episode_start(t, 4),
{
    let eps = episodes();
    let last = &eps[3];
    let c4 = cap_exec(&last.caps[4]);
    let d = last.t_forward + if c4 < FLY_OUT { FLY_OUT } else { c4 } + PAUSE;
    proof {
        assert forall|t: Seq<Route>| #[trigger] is_table(t) implies d == episode_start(t, 4) by {
            assert(episode_ok(t, eps@[3], 3));
            assert(episode_start(t, 4) == episode_start(t, 3) + episode_len(t, packet(3)));
        }
    }
    d
}

/// Stage of an episode.
#[derive(PartialEq, Eq, Structural, Clone, Copy, Debug)]
pub enum HopStage {
    Arriving,
    Reading,
    Ttl,
    Lookup,
    Forwarding,
}

pub open spec fn hop_stage_index(s: HopStage) -> int {
    match s {
        HopStage::Arriving => 0,
        HopStage::Reading => 1,
        HopStage::Ttl => 2,
        HopStage::Lookup => 3,
        HopStage::Forwarding => 4,
    }
}

/// The router sim as a looping animation.
pub struct RouterHop;

impl RouterHop {
    pub fn duration(&self) -> (d: u64)
        ensures
            forall|t: Seq<Route>| #[trigger] is_table(t) ==> d == episode_start(t, 4),
    {
        duration()
    }

    /// The episode playing at `t` (looped), its stage, and the caption shown.
    pub fn stage_at(&self, t: u64) -> (res: (usize, HopStage, String))
        ensures
            res.0 < 4,
            forall|tb: Seq<Route>| #[trigger] is_table(tb) ==> {
                let tt = (t as nat) % episode_start(tb, 4);
                let p = res.0 as int;
                let d = packet(p);
                let e0 = episode_start(tb, p);
                let r = e0 + max_nat(cap(caption(tb, d, 0)), 700);
                let tl = r + cap(caption(tb, d, 1));
                let lk = tl + cap(caption(tb, d, 2));
                let fw = lk + cap(caption(tb, d, 3));
                &&& e0 <= tt
                &&& (p < 3 ==> tt < episode_start(tb, p + 1))
                &&& res.1 == (if tt >= fw { HopStage::Forwarding } else if tt >= lk { HopStage::Lookup }
                        else if tt >= tl { HopStage::Ttl } else if tt >= r { HopStage::Reading } else { HopStage::Arriving })
                &&& res.2@ == caption(tb, d, hop_stage_index(res.1))
            },
    {
        let eps = episodes();
        let d = duration();
        let tb = table();
        proof {
            assert(episode_ok(tb@, eps@[0], 0));
            assert(episode_start(tb@, 1) > 0);
            lemma_start_monotone(tb@, 1, 4);
        }
        let tt = t % d;
        let mut starts: Vec<u64> = Vec::new();
        let mut k: usize = 0;
        while k < 4
            invariant
                k <= 4,
                eps@.len() == 4,
                starts@.len() == k,
                forall|j: int| 0 <= j < k ==> #[trigger] starts@[j] == eps@[j].start,
            decreases 4 - k,
        {
            starts.push(eps[k].start);
            k = k + 1;
        }
        let ei = crate::schedule::stage_index(&starts, tt);
        let e = &eps[ei];
        let stage = if tt >= e.t_forward {
            HopStage::Forwarding
        } else if tt >= e.t_lookup {
            HopStage::Lookup
        } else if tt >= e.t_ttl {
            HopStage::Ttl
        } else if tt >= e.t_read {
            HopStage::Reading
        } else {
            HopStage::Arriving
        };
        let idx: usize = match stage {
            HopStage::Arriving => 0,
            HopStage::Reading => 1,
            HopStage::Ttl => 2,
            HopStage::Lookup => 3,
            HopStage::Forwarding => 4,
        };
        let note = e.caps[idx].clone();
        proof {
            assert forall|q: Seq<Route>| #[trigger] is_table(q) implies {
                let tq = (t as nat) % episode_start(q, 4);
                let p = ei as int;
                let dd = packet(p);
                let e0 = episode_start(q, p);
                let r = e0 + max_nat(cap(caption(q, dd, 0)), 700);
                let tl = r + cap(caption(q, dd, 1));
                let lk = tl + cap(caption(q, dd, 2));
                let fw = lk + cap(caption(q, dd, 3));
                &&& e0 <= tq
                &&& (p < 3 ==> tq < episode_start(q, p + 1))
                &&& stage == (if tq >= fw { HopStage::Forwarding } else if tq >= lk { HopStage::Lookup }
                        else if tq >= tl { HopStage::Ttl } else if tq >= r { HopStage::Reading } else { HopStage::Arriving })
                &&& note@ == caption(q, dd, hop_stage_index(stage))
            } by {
                lemma_same_table(q, tb@);
                assert(episode_ok(q, eps@[ei as int], ei as int));
                assert(starts@[0] == 0) by { assert(episode_ok(q, eps@[0], 0)); }
                if ei < 3 {
                    assert(starts@[ei + 1] == eps@[ei + 1].start);
                    assert(episode_ok(q, eps@[ei + 1], ei + 1));
                }
            }
        }
        (ei, stage, note)
    }
}

proof fn lemma_start_monotone(t: Seq<Route>, p: int, q: int)
    requires
        0 <= p <= q,
    ensures
        episode_start(t, p) <= episode_start(t, q),
    decreases q - p,
{
    if p < q {
        lemma_start_monotone(t, p, q - 1);
    }
}

/// `d` agrees with the route network `o` on its first `n` bits because the
/// whole octets before bit `n` are equal.
proof fn lemma_agree_by_octets(d: Seq<u8>, o: Seq<u8>, n: int)
    requires
        0 <= n <= 32,
        n % 8 == 0,
        d.len() == 4,
        o.len() == 4,
        forall|k: int| 0 <= k < n / 8 ==> d[k] == o[k],
    ensures
        agree(d, o, n),
{
    assert forall|i: int| 0 <= i < n implies #[trigger] bit(d, i) == bit(o, i) by {
        assert(0 <= i / 8 < n / 8);
        assert(d[i / 8] == o[i / 8]);
    }
}

/// Where the four sample packets go: 91.198.174.192 out line 3 (the /24),
/// 91.198.5.10 out line 2 (the /16), 10.1.2.3 out line 5 (the /8) and
/// 8.8.8.8 out line 1 (the default route).
pub proof fn lemma_packet_lines(t: Seq<Route>)
    requires
        is_table(t),
    ensures
        lpm(t, packet(0)) == 2 && t[2].line@ == "line 3"@,
        lpm(t, packet(1)) == 1 && t[1].line@ == "line 2"@,
        lpm(t, packet(2)) == 3 && t[3].line@ == "line 5"@,
        lpm(t, packet(3)) == 0 && t[0].line@ == "line 1"@,
{
    assert(is_entry(t[0], 0) && is_entry(t[1], 1) && is_entry(t[2], 2) && is_entry(t[3], 3));
    let o0 = t[0].octets@;
    let o1 = t[1].octets@;
    let o2 = t[2].octets@;
    let o3 = t[3].octets@;
    let p0 = packet(0);
    let p1 = packet(1);
    let p2 = packet(2);
    let p3 = packet(3);
    // the default route holds every address
    lemma_agree_by_octets(p0, o0, 0);
    lemma_agree_by_octets(p1, o0, 0);
    lemma_agree_by_octets(p2, o0, 0);
    lemma_agree_by_octets(p3, o0, 0);
    // equal leading octets
    lemma_agree_by_octets(p0, o1, 16);
    lemma_agree_by_octets(p0, o2, 24);
    lemma_agree_by_octets(p1, o1, 16);
    lemma_agree_by_octets(p2, o3, 8);
    // a differing bit inside the prefix: 91 = 0b01011011, 10 = 0b00001010,
    // 8 = 0b00001000, 174 = 0b10101110, 5 = 0b00000101
    assert((91u8 >> 6u8) & 1u8 == 1u8 && (10u8 >> 6u8) & 1u8 == 0u8 && (8u8 >> 6u8) & 1u8 == 0u8) by (bit_vector);
    assert((174u8 >> 7u8) & 1u8 == 1u8 && (5u8 >> 7u8) & 1u8 == 0u8) by (bit_vector);
    assert((8u8 >> 1u8) & 1u8 == 0u8 && (10u8 >> 1u8) & 1u8 == 1u8) by (bit_vector);
    assert(bit(p0, 1) != bit(o3, 1));
    assert(bit(p1, 16) != bit(o2, 16));
    assert(bit(p1, 1) != bit(o3, 1));
    assert(bit(p2, 1) != bit(o1, 1));
    assert(bit(p2, 1) != bit(o2, 1));
    assert(bit(p3, 1) != bit(o1, 1));
    assert(bit(p3, 1) != bit(o2, 1));
    assert(bit(p3, 6) != bit(o3, 6));
    assert(contains(p0, t[0]) && contains(p0, t[1]) && contains(p0, t[2]) && !contains(p0, t[3]));
    assert(contains(p1, t[0]) && contains(p1, t[1]) && !contains(p1, t[2]) && !contains(p1, t[3]));
    assert(contains(p2, t[0]) && !contains(p2, t[1]) && !contains(p2, t[2]) && contains(p2, t[3]));
    assert(contains(p3, t[0]) && !contains(p3, t[1]) && !contains(p3, t[2]) && !contains(p3, t[3]));
    reveal_with_fuel(lpm_upto, 5);
    reveal_strlit("line 1");
    reveal_strlit("line 2");
    reveal_strlit("line 3");
    reveal_strlit("line 5");
}

} // verus!
