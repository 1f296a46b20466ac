//! Longest-prefix match, bit by bit: a destination address is compared with
//! the fixed prefix bits of each route; the most specific matching route wins.
use vstd::prelude::*;
use crate::text::{dec, push_char, push_dec, push_str};

verus! {

/// A route: its CIDR text, network octets and prefix length.
pub struct Route {
    pub cidr: &'static str,
    pub octets: [u8; 4],
    pub prefix: usize,
}

/// Bit `i` (0 = most significant) of a 32-bit address given as four octets.
pub open spec fn bit(o: Seq<u8>, i: int) -> u8 {
    (o[i / 8] >> ((7 - i % 8) as u8)) & 1u8
}

/// The address and the route network agree on their first `n` bits.
pub open spec fn agree(a: Seq<u8>, b: Seq<u8>, n: int) -> bool {
    forall|i: int| 0 <= i < n ==> #[trigger] bit(a, i) == bit(b, i)
}

/// `dest` lies inside the route's prefix.
pub open spec fn route_matches(dest: Seq<u8>, r: Route) -> bool {
    agree(dest, r.octets@, r.prefix as int)
}

/// The 32 bits of an address, most significant first.
pub fn bits_of(octets: &[u8; 4]) -> (v: Vec<u8>)
    ensures
        v@.len() == 32,
        forall|i: int| 0 <= i < 32 ==> #[trigger] v@[i] == bit(octets@, i),
{
    let mut v: Vec<u8> = Vec::new();
    let mut k: usize = 0;
    while k < 4
        invariant
            k <= 4,
            v@.len() == 8 * k,
            forall|i: int| 0 <= i < 8 * k ==> #[trigger] v@[i] == bit(octets@, i),
        decreases 4 - k,
    {
        let o = octets[k];
        let mut j: usize = 0;
        while j < 8
            invariant
                k < 4,
                j <= 8,
                o == octets@[k as int],
                v@.len() == 8 * k + j,
                forall|i: int| 0 <= i < 8 * k + j ==> #[trigger] v@[i] == bit(octets@, i),
            decreases 8 - j,
        {
            let b = (o >> ((7 - j) as u8)) & 1;
            v.push(b);
            proof {
                let i = (8 * k + j) as int;
                assert(i / 8 == k as int && i % 8 == j as int) by (nonlinear_arith)
                    requires i == 8 * k + j, j < 8;
                assert(v@[i] == bit(octets@, i));
            }
            j = j + 1;
        }
        k = k + 1;
    }
    v
}

/// First prefix bit where the route differs from `dest`, if any.
pub fn first_mismatch(dest: &[u8; 4], r: &Route) -> (m: Option<usize>)
    requires
        r.prefix <= 32,
    ensures
        match m {
            Some(i) => i < r.prefix && bit(r.octets@, i as int) != bit(dest@, i as int)
                && agree(dest@, r.octets@, i as int),
            None => route_matches(dest@, *r),
        },
{
    let rb = bits_of(&r.octets);
    let db = bits_of(dest);
    let mut i: usize = 0;
    while i < r.prefix
        invariant
            r.prefix <= 32,
            i <= r.prefix,
            forall|k: int| 0 <= k < 32 ==> #[trigger] rb@[k] == bit(r.octets@, k),
            forall|k: int| 0 <= k < 32 ==> #[trigger] db@[k] == bit(dest@, k),
            agree(dest@, r.octets@, i as int),
            rb@.len() == 32 && db@.len() == 32,
        decreases r.prefix - i,
    {
        if rb[i] != db[i] {
            return Some(i);
        }
        i = i + 1;
    }
    None
}

/// The destination being looked up, 91.198.174.192.
pub open spec fn dest() -> Seq<u8> {
    seq![91u8, 198, 174, 192]
}

/// The bit text of a route's prefix: bits in groups of eight, the first
/// mismatching bit shown as `×` when marked.
pub open spec fn bit_text(o: Seq<u8>, n: nat, mark: Option<usize>) -> Seq<char>
    decreases n,
{
    if n == 0 {
        seq![]
    } else {
        let i = (n - 1) as nat;
        let sep: Seq<char> = if i > 0 && i % 8 == 0 { seq![' '] } else { seq![] };
        let c = if mark == Some(i as usize) { '×' } else if bit(o, i as int) == 1 { '1' } else { '0' };
        bit_text(o, i, mark) + sep + seq![c]
    }
}

pub open spec fn bit_string_spec(r: Route, mark: Option<usize>) -> Seq<char> {
    if r.prefix == 0 {
        "0 bits fixed"@
    } else {
        bit_text(r.octets@, r.prefix as nat, mark)
    }
}

/// Prefix bits of a route (see `bit_string_spec`); with `mark_mismatch`, the
/// first bit that differs from the destination is crossed out.
pub fn bit_string(r: &Route, mark_mismatch: bool) -> (s: String)
    requires
        r.prefix <= 32,
    ensures
        s@ == bit_string_spec(*r, if mark_mismatch { spec_first_mismatch(dest(), *r) } else { None }),
{
    let rb = bits_of(&r.octets);
    let d: [u8; 4] = [91, 198, 174, 192];
    assert(d@ =~= dest());
    let mm = if mark_mismatch { first_mismatch(&d, r) } else { None };
    proof {
        if mark_mismatch {
            lemma_first_mismatch_unique(dest(), *r, mm);
        }
    }
    let mut s = String::new();
    let mut i: usize = 0;
    while i < r.prefix
        invariant
            r.prefix <= 32,
            i <= r.prefix,
            rb@.len() == 32,
            forall|k: int| 0 <= k < 32 ==> #[trigger] rb@[k] == bit(r.octets@, k),
            s@ == bit_text(r.octets@, i as nat, mm),
        decreases r.prefix - i,
    {
        let ghost before = s@;
        if i > 0 && i % 8 == 0 {
            push_char(&mut s, ' ');
        }
        let c = if mm == Some(i) { '×' } else if rb[i] == 1 { '1' } else { '0' };
        push_char(&mut s, c);
        assert(s@ =~= bit_text(r.octets@, (i + 1) as nat, mm));
        i = i + 1;
    }
    if r.prefix == 0 {
        push_str(&mut s, "0 bits fixed");
        assert(s@ =~= bit_string_spec(*r, mm));
    }
    s
}

/// The first prefix bit where route and destination differ, as a function.
pub open spec fn spec_first_mismatch(d: Seq<u8>, r: Route) -> Option<usize> {
    if route_matches(d, r) {
        None
    } else {
        Some(choose|i: usize| i < r.prefix && bit(r.octets@, i as int) != bit(d, i as int) && agree(d, r.octets@, i as int))
    }
}

pub proof fn lemma_first_mismatch_unique(d: Seq<u8>, r: Route, m: Option<usize>)
    requires
        match m {
            Some(i) => i < r.prefix && bit(r.octets@, i as int) != bit(d, i as int) && agree(d, r.octets@, i as int),
            None => route_matches(d, r),
        },
    ensures
        m == spec_first_mismatch(d, r),
{
    if let Some(i) = m {
        assert(!route_matches(d, r));
        let j = choose|j: usize| j < r.prefix && bit(r.octets@, j as int) != bit(d, j as int) && agree(d, r.octets@, j as int);
        if j < i {
            assert(bit(d, j as int) == bit(r.octets@, j as int));
        }
        if i < j {
            assert(bit(d, i as int) == bit(r.octets@, i as int));
        }
    }
}

/// Time each route is shown (ms).
pub const STEP_MS: u64 = 2600;
/// Loop length: four routes and the summary step.
pub const DURATION: u64 = 13000;

pub open spec fn cidr_of(i: int) -> Seq<char> {
    if i == 0 { "91.198.174.0/24"@ } else if i == 1 { "91.198.0.0/16"@ } else if i == 2 { "10.0.0.0/8"@ } else { "0.0.0.0/0"@ }
}

pub open spec fn octets_of(i: int) -> Seq<u8> {
    if i == 0 { seq![91u8, 198, 174, 0] } else if i == 1 { seq![91u8, 198, 0, 0] } else if i == 2 { seq![10u8, 0, 0, 0] } else { seq![0u8, 0, 0, 0] }
}

pub open spec fn prefix_of(i: int) -> usize {
    if i == 0 { 24 } else if i == 1 { 16 } else if i == 2 { 8 } else { 0 }
}

/// Route `i` of the table checked against the destination.
pub open spec fn is_route(r: Route, i: int) -> bool {
    r.cidr@ == cidr_of(i) && r.octets@ == octets_of(i) && r.prefix == prefix_of(i)
}

/// The table: /24, /16, /8 and the default route, in checking order.
pub fn routes() -> (v: Vec<Route>)
    ensures
        v@.len() == 4,
        forall|i: int| 0 <= i < 4 ==> is_route(#[trigger] v@[i], i),
{
    let v = vec![
        Route { cidr: "91.198.174.0/24", octets: [91, 198, 174, 0], prefix: 24 },
        Route { cidr: "91.198.0.0/16", octets: [91, 198, 0, 0], prefix: 16 },
        Route { cidr: "10.0.0.0/8", octets: [10, 0, 0, 0], prefix: 8 },
        Route { cidr: "0.0.0.0/0", octets: [0, 0, 0, 0], prefix: 0 },
    ];
    assert(v@[0].octets@ =~= octets_of(0));
    assert(v@[1].octets@ =~= octets_of(1));
    assert(v@[2].octets@ =~= octets_of(2));
    assert(v@[3].octets@ =~= octets_of(3));
    v
}

/// CIDR texts of the routes in `rs` that contain the destination, joined by ", ".
pub open spec fn matching_list(rs: Seq<Route>) -> Seq<char>
    decreases rs.len(),
{
    if rs.len() == 0 {
        seq![]
    } else if !route_matches(dest(), rs.last()) {
        matching_list(rs.drop_last())
    } else if matching_list(rs.drop_last()).len() == 0 {
        rs.last().cidr@
    } else {
        matching_list(rs.drop_last()) + ", "@ + rs.last().cidr@
    }
}

/// Number of routes in `rs` that contain the destination.
pub open spec fn matching_count(rs: Seq<Route>) -> nat
    decreases rs.len(),
{
    if rs.len() == 0 {
        0
    } else {
        matching_count(rs.drop_last()) + if route_matches(dest(), rs.last()) { 1nat } else { 0nat }
    }
}

/// The caption while route `r` is being checked.
pub open spec fn check_note(r: Route) -> Seq<char> {
    if r.prefix == 0 {
        r.cidr@ + " fixes no bits at all, the catch-all default. It always matches, but it's the least specific route there is."@
    } else if route_matches(dest(), r) {
        r.cidr@ + " fixes the first "@ + dec(r.prefix as nat) + " bits, and every one of them equals the address's first "@
            + dec(r.prefix as nat) + " bits, a match."@
    } else {
        r.cidr@ + " fixes the first "@ + dec(r.prefix as nat) + " bits, but bit "@
            + dec((spec_first_mismatch(dest(), r)->0 + 1) as nat)
            + " differs from the address's, ruled out right there, no need to check the rest."@
    }
}

/// The closing caption once every route has been checked.
pub open spec fn summary_note(rs: Seq<Route>) -> Seq<char> {
    dec(matching_count(rs)) + " routes match: "@ + matching_list(rs)
        + ". Longest prefix wins, 91.198.174.0/24 is the most specific, so that's the line the packet takes."@
}

/// The step shown at `t`: 0..=3 checks route `step`, 4 is the summary.
pub open spec fn step_at(t: nat) -> nat {
    (t % DURATION as nat) / STEP_MS as nat
}

fn check_note_exec(r: &Route) -> (s: String)
    requires
        r.prefix <= 32,
    ensures
        s@ == check_note(*r),
{
    let d: [u8; 4] = [91, 198, 174, 192];
    assert(d@ =~= dest());
    let mut s = String::new();
    push_str(&mut s, r.cidr);
    if r.prefix == 0 {
        push_str(&mut s, " fixes no bits at all, the catch-all default. It always matches, but it's the least specific route there is.");
    } else {
        let mm = first_mismatch(&d, r);
        proof { lemma_first_mismatch_unique(dest(), *r, mm); }
        push_str(&mut s, " fixes the first ");
        push_dec(&mut s, r.prefix as u64);
        match mm {
            None => {
                push_str(&mut s, " bits, and every one of them equals the address's first ");
                push_dec(&mut s, r.prefix as u64);
                push_str(&mut s, " bits, a match.");
            },
            Some(m) => {
                push_str(&mut s, " bits, but bit ");
                push_dec(&mut s, m as u64 + 1);
                push_str(&mut s, " differs from the address's, ruled out right there, no need to check the rest.");
            },
        }
    }
    assert(s@ =~= check_note(*r));
    s
}

/// The route-lookup sim as a looping animation.
pub struct IpBits;

impl IpBits {
    /// Loop length (ms).
    pub fn duration(&self) -> (d: u64)
        ensures
            d == DURATION,
    {
        DURATION
    }

    /// Caption at `t`: the check of the current route, or the summary.
    pub fn note_at(&self, t: u64) -> (note: String)
        ensures
            forall|rs: Seq<Route>| rs.len() == 4 && (forall|i: int| 0 <= i < 4 ==> is_route(#[trigger] rs[i], i)) ==>
                note@ == if step_at(t as nat) < 4 { check_note(rs[step_at(t as nat) as int]) } else { summary_note(rs) },
    {
        let rs = routes();
        let step = ((t % DURATION) / STEP_MS) as usize;
        if step < 4 {
            let n = check_note_exec(&rs[step]);
            proof {
                assert forall|q: Seq<Route>| q.len() == 4 && (forall|i: int| 0 <= i < 4 ==> is_route(#[trigger] q[i], i))
                    implies n@ == check_note(q[step as int]) by {
                    lemma_same_route(q[step as int], rs@[step as int], step as int);
                }
            }
            n
        } else {
            let d: [u8; 4] = [91, 198, 174, 192];
            assert(d@ =~= dest());
            let mut count: u64 = 0;
            let mut list = String::new();
            let mut i: usize = 0;
            while i < 4
                invariant
                    i <= 4,
                    rs@.len() == 4,
                    d@ == dest(),
                    forall|k: int| 0 <= k < 4 ==> is_route(#[trigger] rs@[k], k),
                    count == matching_count(rs@.take(i as int)),
                    count <= i,
                    list@ == matching_list(rs@.take(i as int)),
                decreases 4 - i,
            {
                let r = &rs[i];
                let mm = first_mismatch(&d, r);
                assert(rs@.take(i + 1).drop_last() =~= rs@.take(i as int));
                assert(rs@.take(i + 1).last() == rs@[i as int]);
                if mm.is_none() {
                    if count > 0 {
                        push_str(&mut list, ", ");
                    }
                    proof {
                        reveal_strlit("91.198.174.0/24");
                        reveal_strlit("91.198.0.0/16");
                        reveal_strlit("10.0.0.0/8");
                        reveal_strlit("0.0.0.0/0");
                        assert forall|k: int| 0 <= k < i implies (#[trigger] rs@.take(i as int)[k]).cidr@.len() > 0 by {
                            assert(is_route(rs@[k], k));
                        }
                        lemma_list_empty_iff_zero(rs@.take(i as int));
                    }
                    push_str(&mut list, r.cidr);
                    count = count + 1;
                }
                i = i + 1;
            }
            assert(rs@.take(4) =~= rs@);
            let mut s = String::new();
            push_dec(&mut s, count);
            push_str(&mut s, " routes match: ");
            push_str(&mut s, list.as_str());
            push_str(&mut s, ". Longest prefix wins, 91.198.174.0/24 is the most specific, so that's the line the packet takes.");
            proof {
                assert forall|q: Seq<Route>| q.len() == 4 && (forall|i: int| 0 <= i < 4 ==> is_route(#[trigger] q[i], i))
                    implies s@ == summary_note(q) by {
                    lemma_same_table(q, rs@);
                }
            }
            s
        }
    }
}

proof fn lemma_list_empty_iff_zero(rs: Seq<Route>)
    requires
        forall|i: int| 0 <= i < rs.len() ==> (#[trigger] rs[i]).cidr@.len() > 0,
    ensures
        (matching_list(rs).len() == 0) <==> (matching_count(rs) == 0),
    decreases rs.len(),
{
    if rs.len() > 0 {
        lemma_list_empty_iff_zero(rs.drop_last());
        assert(rs.last().cidr@.len() > 0);
    }
}

proof fn lemma_same_route(a: Route, b: Route, i: int)
    requires
        is_route(a, i),
        is_route(b, i),
    ensures
        check_note(a) == check_note(b),
        route_matches(dest(), a) == route_matches(dest(), b),
        a.cidr@ == b.cidr@,
{
    assert(spec_first_mismatch(dest(), a) == spec_first_mismatch(dest(), b));
}

proof fn lemma_same_table(a: Seq<Route>, b: Seq<Route>)
    requires
        a.len() == b.len(),
        forall|i: int| 0 <= i < a.len() ==> a[i].cidr@ == b[i].cidr@ && a[i].octets@ == b[i].octets@ && a[i].prefix == b[i].prefix,
    ensures
        matching_list(a) == matching_list(b),
        matching_count(a) == matching_count(b),
        summary_note(a) == summary_note(b),
    decreases a.len(),
{
    if a.len() > 0 {
        lemma_same_table(a.drop_last(), b.drop_last());
    }
}

} // verus!
